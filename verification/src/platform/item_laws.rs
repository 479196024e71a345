//! Published items and kept credentials, told by the files they are in.
use crate::hash;
use crate::json;
use crate::json::{JsonView, MemberView};
use crate::paths;
use crate::platform::custody;
use crate::platform::index;
use crate::platform::local;
use crate::platform::local::{ItemFiles, OutboxIndex};
use vstd::prelude::*;

verus! {

// ---------- places ----------

/// The outbox lies in the user's data directory: the one set, or the usual one
/// of the home directory.
pub proof fn where_the_outbox_is(base: Seq<char>)
    requires
        base.len() > 0,
        base[base.len() - 1] != '/',
    ensures
        local::outbox_dir(Some(base), None) == base + "/cadence/outbox"@,
        local::outbox_dir(None, Some(base)) == base + "/.local/share/cadence/outbox"@,
        local::outbox_dir(Some(seq![]), Some(base)) == base + "/.local/share/cadence/outbox"@,
        local::outbox_dir(Some(base), Some(base)) == base + "/cadence/outbox"@,
{
    reveal_strlit("/");
    reveal_strlit("cadence");
    reveal_strlit("outbox");
    reveal_strlit(".local/share");
    reveal_strlit("/cadence/outbox");
    reveal_strlit("/.local/share/cadence/outbox");
    let c = base + "/"@ + "cadence"@;
    assert(c.last() == 'e');
    assert(c + "/"@ + "outbox"@ =~= base + "/cadence/outbox"@);
    let h = base + "/"@ + ".local/share"@;
    assert(h.last() == 'e');
    let d = h + "/"@ + "cadence"@;
    assert(d.last() == 'e');
    assert(d + "/"@ + "outbox"@ =~= base + "/.local/share/cadence/outbox"@);
    assert(paths::join(base, "cadence"@) == c);
    assert(paths::join(base, ".local/share"@) == h);
    assert(paths::join(h, "cadence"@) == d);
}

// ---------- replays ----------

/// The first index of the project counts.
pub proof fn the_projects_own_index_counts(
    found: Seq<(String, String)>,
    project: Seq<char>,
    i: int,
)
    requires
        0 <= i < found.len(),
        found[i].0@ == project,
        forall|j: int| 0 <= j < i ==> (#[trigger] found[j]).0@ != project,
    ensures
        index::own_index(found, project) == Some(found[i].1@),
    decreases i,
{
    if i > 0 {
        let w = found.drop_first();
        assert(found[0].0@ != project);
        assert(w[i - 1] == found[i]);
        assert forall|j: int| 0 <= j < i - 1 implies (#[trigger] w[j]).0@ != project by {
            assert(w[j] == found[j + 1]);
        }
        the_projects_own_index_counts(w, project, i - 1);
    }
}

proof fn no_own_index(found: Seq<(String, String)>, project: Seq<char>)
    requires
        forall|j: int| 0 <= j < found.len() ==> (#[trigger] found[j]).0@ != project,
    ensures
        index::own_index(found, project) is None,
    decreases found.len(),
{
    if found.len() > 0 {
        let w = found.drop_first();
        assert(found[0].0@ != project);
        assert forall|j: int| 0 <= j < w.len() implies (#[trigger] w[j]).0@ != project by {
            assert(w[j] == found[j + 1]);
        }
        no_own_index(w, project);
    }
}

/// An item is new exactly where nothing stands under its key, in this project
/// or any other.
pub proof fn what_item_is_new(
    found: Seq<(String, String)>,
    exists_now: bool,
    project: Seq<char>,
    input_sha: Seq<char>,
    key: Seq<char>,
)
    ensures
        index::prior(found, exists_now, project, input_sha, key) == Ok::<
            Option<JsonView>,
            Seq<char>,
        >(None) <==> found.len() == 0 && !exists_now,
        found.len() > 0 && (forall|j: int|
            0 <= j < found.len() ==> (#[trigger] found[j]).0@ != project) ==> index::prior(
            found,
            exists_now,
            project,
            input_sha,
            key,
        ) is Err,
{
    if forall|j: int| 0 <= j < found.len() ==> (#[trigger] found[j]).0@ != project {
        no_own_index(found, project);
    }
}

/// A recorded item answers with its result to the same input, and refuses any
/// other.
pub proof fn a_recorded_item_answers_its_input(
    recorded: JsonView,
    sha: Seq<char>,
    result: JsonView,
    input_sha: Seq<char>,
    key: Seq<char>,
)
    requires
        json::field(recorded, "input_sha256"@) == Some(JsonView::Str(sha)),
        json::field(recorded, "result"@) == Some(result),
        !(result is Null),
    ensures
        local::replayed(recorded, input_sha, key) is Ok <==> input_sha == sha,
        input_sha == sha ==> local::replayed(recorded, input_sha, key) == Ok::<
            JsonView,
            Seq<char>,
        >(result),
{
}

// ---------- the index ----------

/// An index records the digests of the input, the post and the whole, and the
/// result.
pub proof fn an_index_records_its_item(i: OutboxIndex)
    ensures
        ({
            let v = index::index_view(i);
            &&& json::field(v, "input_sha256"@) == Some(JsonView::Str(i.input_sha256@))
            &&& json::field(v, "post_sha256"@) == Some(JsonView::Str(i.post_sha256@))
            &&& json::field(v, "content_sha256"@) == Some(JsonView::Str(i.content_sha256@))
            &&& json::field(v, "effect_id"@) == Some(JsonView::Str(i.effect_id@))
            &&& json::field(v, "title"@) == Some(JsonView::Str(i.title@))
            &&& json::field(v, "published_at"@) == Some(JsonView::Str(i.published_at@))
            &&& json::field(v, "project"@) == Some(JsonView::Str(i.project@))
        }),
{
    reveal_strlit("attachments");
    reveal_strlit("content_sha256");
    reveal_strlit("effect_id");
    reveal_strlit("input_sha256");
    reveal_strlit("post_sha256");
    reveal_strlit("project");
    reveal_strlit("published_at");
    reveal_strlit("result");
    reveal_strlit("title");
    assert("attachments"@.len() == 11 && "content_sha256"@.len() == 14 && "effect_id"@.len() == 9
        && "input_sha256"@.len() == 12 && "post_sha256"@.len() == 11 && "project"@.len() == 7
        && "published_at"@.len() == 12 && "result"@.len() == 6 && "title"@.len() == 5);
    assert("attachments"@[0] != "post_sha256"@[0]);
    assert("input_sha256"@[0] != "published_at"@[0]);
    reveal_with_fuel(json::entry, 10);
    let d = index::index_view(i)->Obj_0;
    let d1 = d.drop_first();
    let d2 = d1.drop_first();
    let d3 = d2.drop_first();
    let d4 = d3.drop_first();
    let d5 = d4.drop_first();
    let d6 = d5.drop_first();
    let d7 = d6.drop_first();
    let d8 = d7.drop_first();
    assert(d1[0] == d[1] && d2[0] == d[2] && d3[0] == d[3] && d4[0] == d[4] && d5[0] == d[5]);
    assert(d6[0] == d[6] && d7[0] == d[7] && d8[0] == d[8]);
}

// ---------- reading back ----------

/// The first file of a name is the one read.
pub proof fn the_first_file_of_a_name_is_read(
    files: Seq<(String, Vec<u8>)>,
    name: Seq<char>,
    i: int,
)
    requires
        0 <= i < files.len(),
        files[i].0@ == name,
        forall|j: int| 0 <= j < i ==> (#[trigger] files[j]).0@ != name,
    ensures
        local::file_in(files, name) == Some(files[i].1@),
    decreases i,
{
    if i > 0 {
        let w = files.drop_first();
        assert(files[0].0@ != name);
        assert(w[i - 1] == files[i]);
        assert forall|j: int| 0 <= j < i - 1 implies (#[trigger] w[j]).0@ != name by {
            assert(w[j] == files[j + 1]);
        }
        the_first_file_of_a_name_is_read(w, name, i - 1);
    }
}

/// A post that is gone or has other bytes is not intact; nor is an item one of
/// whose attachments is gone or has other bytes.
pub proof fn what_breaks_an_item(
    f: ItemFiles,
    recorded: JsonView,
    list: Seq<JsonView>,
    post_sha: Seq<char>,
    i: int,
    name: Seq<char>,
    sha: Seq<char>,
)
    requires
        json::field(recorded, "attachments"@) == Some(JsonView::Arr(list)),
        0 <= i < list.len(),
        json::field(list[i], "name"@) == Some(JsonView::Str(name)),
        json::field(list[i], "sha256"@) == Some(JsonView::Str(sha)),
    ensures
        f.post is None ==> !local::intact(f, recorded, post_sha),
        f.post is Some && hash::sha256_hex(f.post->0@) != post_sha ==> !local::intact(
            f,
            recorded,
            post_sha,
        ),
        local::file_in(f.files@, name) is None ==> !local::intact(f, recorded, post_sha),
        local::file_in(f.files@, name) is Some && hash::sha256_hex(
            local::file_in(f.files@, name)->0,
        ) != sha ==> !local::intact(f, recorded, post_sha),
{
    some_name_is_listed(list, i);
    if local::intact(f, recorded, post_sha) {
        assert(local::present(list[i], f.files@));
    }
}

proof fn some_name_is_listed(list: Seq<JsonView>, i: int)
    requires
        0 <= i < list.len(),
        json::field_str(list[i], "name"@) is Some,
    ensures
        local::listed_names(list).len() > 0,
    decreases list.len(),
{
    if i < list.len() - 1 {
        some_name_is_listed(list.drop_last(), i);
    }
}

/// Each attachment is listed by its name, in order.
pub proof fn every_attachment_is_listed(list: Seq<JsonView>, a: JsonView, name: Seq<char>)
    ensures
        local::listed_names(seq![]).len() == 0,
        json::field(a, "name"@) == Some(JsonView::Str(name)) ==> local::listed_names(list.push(a))
            == local::listed_names(list).push(name),
{
    assert(list.push(a).drop_last() =~= list);
}

/// An item with its own post and its own attachments, and no other file, is
/// intact.
pub proof fn what_keeps_an_item_whole(
    f: ItemFiles,
    recorded: JsonView,
    list: Seq<JsonView>,
    post_sha: Seq<char>,
)
    requires
        json::field(recorded, "attachments"@) == Some(JsonView::Arr(list)),
        f.post is Some,
        hash::sha256_hex(f.post->0@) == post_sha,
        list.len() == 0 ==> !f.has_dir,
        forall|i: int|
            0 <= i < list.len() ==> {
                let name = json::field_str(#[trigger] list[i], "name"@);
                let sha = json::field_str(list[i], "sha256"@);
                &&& name is Some && sha is Some
                &&& local::file_in(f.files@, name->0) is Some
                &&& hash::sha256_hex(local::file_in(f.files@, name->0)->0) == sha->0
            },
        list.len() > 0 ==> f.listing is Some && f.listing->0.deep_view() == local::listed_names(
            list,
        ),
    ensures
        local::intact(f, recorded, post_sha),
{
    if list.len() > 0 {
        some_name_is_listed(list, 0);
        assert forall|i: int| 0 <= i < list.len() implies local::present(
            #[trigger] list[i],
            f.files@,
        ) by {}
    }
}

// ---------- the board's view ----------

/// The board sees an item with the beginning of its post and its place, and
/// without what identifies its input.
pub proof fn what_the_board_sees_of_an_item(
    path: Seq<char>,
    post: Seq<char>,
    m: Seq<MemberView>,
)
    ensures
        ({
            let v = local::item_view(path, Some(post), JsonView::Obj(m));
            &&& json::field(v, "path"@) == Some(JsonView::Str(path))
            &&& json::field(v, "preview"@) == Some(
                JsonView::Str(
                    if post.len() <= 400 {
                        post
                    } else {
                        post.take(400).push('…')
                    },
                ),
            )
            &&& json::field(v, "input_sha256"@) is None && json::field(v, "result"@) is None
            &&& json::field(v, "title"@) == json::entry(m, "title"@)
        }),
{
    reveal_strlit("path");
    reveal_strlit("preview");
    reveal_strlit("input_sha256");
    reveal_strlit("result");
    reveal_strlit("board_url");
    reveal_strlit("title");
    assert("path"@.len() == 4 && "preview"@.len() == 7 && "input_sha256"@.len() == 12
        && "result"@.len() == 6 && "board_url"@.len() == 9 && "title"@.len() == 5);
    let p = JsonView::Str(local::excerpt(Some(post)));
    let m1 = json::with(m, "preview"@, p);
    let a = json::with(m1, "path"@, JsonView::Str(path));
    let b = match local::result_url(a) {
        Some(url) => json::with(a, "board_url"@, JsonView::Str(url)),
        None => a,
    };
    let c = json::without(b, "result"@);
    let keys = seq!["path"@, "preview"@, "input_sha256"@, "result"@, "title"@];
    assert forall|k: int| 0 <= k < 5 implies json::entry(
        json::without(c, "input_sha256"@),
        #[trigger] keys[k],
    ) == (if keys[k] == "input_sha256"@ || keys[k] == "result"@ {
        None
    } else if keys[k] == "path"@ {
        Some(JsonView::Str(path))
    } else if keys[k] == "preview"@ {
        Some(p)
    } else {
        json::entry(m, keys[k])
    }) by {
        json::without_entry(c, "input_sha256"@, keys[k]);
        json::without_entry(b, "result"@, keys[k]);
        if let Some(url) = local::result_url(a) {
            json::with_entry(a, "board_url"@, JsonView::Str(url), keys[k]);
        }
        json::with_entry(m1, "path"@, JsonView::Str(path), keys[k]);
        json::with_entry(m, "preview"@, p, keys[k]);
    }
    assert(keys[0] == "path"@ && keys[1] == "preview"@ && keys[2] == "input_sha256"@ && keys[3]
        == "result"@ && keys[4] == "title"@);
}

// ---------- credentials ----------

/// A credential loses the line ends behind it, and nothing else.
pub proof fn only_line_ends_are_cut(secret: Seq<u8>, ends: Seq<u8>)
    requires
        forall|i: int| 0 <= i < ends.len() ==> #[trigger] ends[i] == 10 || ends[i] == 13,
        secret.len() == 0 || (secret[secret.len() - 1] != 10 && secret[secret.len() - 1] != 13),
    ensures
        custody::unframed(secret + ends) == secret,
    decreases ends.len(),
{
    let s = secret + ends;
    if ends.len() == 0 {
        assert(s =~= secret);
    } else {
        let e = ends.drop_last();
        assert(s.last() == ends[ends.len() - 1]);
        assert(s.drop_last() =~= secret + e);
        only_line_ends_are_cut(secret, e);
    }
}

} // verus!
