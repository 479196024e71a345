//! The index that an outbox item carries, and what a reader finds in it.
use crate::hash;
use crate::json;
use crate::json::{array_of, object_of, put_member, Json, JsonView, Member, MemberView};
use crate::platform::local;
use crate::platform::local::{read_index, refuse_unindexed, replay};
use crate::platform::local::{
    Attachment, AttachmentRecord, ItemFiles, OutboxIndex, PostView, Publication, PublishResult,
    Staged,
};
use crate::text;
use vstd::prelude::*;

verus! {

pub open spec fn entry(key: Seq<char>, value: JsonView) -> MemberView {
    MemberView { key, value }
}

pub open spec fn count(n: nat) -> JsonView {
    JsonView::Num(text::dec(n))
}

pub open spec fn record_view(a: AttachmentRecord) -> JsonView {
    JsonView::Obj(
        seq![
            entry("bytes"@, count(a.bytes as nat)),
            entry("name"@, JsonView::Str(a.name@)),
            entry("sha256"@, JsonView::Str(a.sha256@)),
        ],
    )
}

pub open spec fn result_view(r: PublishResult) -> JsonView {
    JsonView::Obj(
        seq![
            entry("attachments"@, count(r.attachments as nat)),
            entry("board_url"@, JsonView::Str(r.board_url@)),
            entry("path"@, JsonView::Str(r.path@)),
            entry("platform_ref"@, JsonView::Str(r.platform_ref@)),
            entry("url"@, JsonView::Str(r.url@)),
        ],
    )
}

pub open spec fn records_view(v: Seq<AttachmentRecord>) -> Seq<JsonView> {
    v.map_values(|a: AttachmentRecord| record_view(a))
}

/// The index as it is written.
pub open spec fn index_view(i: OutboxIndex) -> JsonView {
    JsonView::Obj(
        seq![
            entry("attachments"@, JsonView::Arr(records_view(i.attachments@))),
            entry("content_sha256"@, JsonView::Str(i.content_sha256@)),
            entry("effect_id"@, JsonView::Str(i.effect_id@)),
            entry("input_sha256"@, JsonView::Str(i.input_sha256@)),
            entry("post_sha256"@, JsonView::Str(i.post_sha256@)),
            entry("project"@, JsonView::Str(i.project@)),
            entry("published_at"@, JsonView::Str(i.published_at@)),
            entry("result"@, result_view(i.result)),
            entry("title"@, JsonView::Str(i.title@)),
        ],
    )
}

fn show(s: &String) -> (r: Json)
    ensures
        r@ == JsonView::Str(s@),
{
    Json::Str(s.clone())
}

fn show_count(n: usize) -> (r: Json)
    ensures
        r@ == count(n as nat),
{
    Json::Num(text::dec_of(n as u64))
}

fn show_record(a: &AttachmentRecord) -> (r: Json)
    ensures
        r@ == record_view(*a),
{
    let mut m: Vec<Member> = Vec::new();
    assert(json::members(m@) =~= seq![]);
    put_member(&mut m, "bytes", show_count(a.bytes));
    put_member(&mut m, "name", show(&a.name));
    put_member(&mut m, "sha256", show(&a.sha256));
    let r = object_of(m);
    assert(r@->Obj_0 =~= record_view(*a)->Obj_0);
    r
}

fn show_records(v: &Vec<AttachmentRecord>) -> (r: Json)
    ensures
        r@ == JsonView::Arr(records_view(v@)),
{
    let mut out: Vec<Json> = Vec::new();
    let mut i: usize = 0;
    while i < v.len()
        invariant
            i <= v@.len(),
            out@.len() == i,
            forall|j: int| 0 <= j < i ==> #[trigger] out@[j]@ == record_view(v@[j]),
        decreases v.len() - i,
    {
        let x = show_record(&v[i]);
        out.push(x);
        i = i + 1;
    }
    assert(out@.map_values(|x: Json| x@) =~= records_view(v@));
    array_of(out)
}

/// The recorded outcome of a publish.
pub fn result_json(r: &PublishResult) -> (j: Json)
    ensures
        j@ == result_view(*r),
{
    let mut m: Vec<Member> = Vec::new();
    assert(json::members(m@) =~= seq![]);
    put_member(&mut m, "attachments", show_count(r.attachments));
    put_member(&mut m, "board_url", show(&r.board_url));
    put_member(&mut m, "path", show(&r.path));
    put_member(&mut m, "platform_ref", show(&r.platform_ref));
    put_member(&mut m, "url", show(&r.url));
    let j = object_of(m);
    assert(j@->Obj_0 =~= result_view(*r)->Obj_0);
    j
}

/// The index that lands beside the post.
pub fn index_json(i: &OutboxIndex) -> (r: Json)
    ensures
        r@ == index_view(*i),
{
    let mut m: Vec<Member> = Vec::new();
    assert(json::members(m@) =~= seq![]);
    put_member(&mut m, "attachments", show_records(&i.attachments));
    put_member(&mut m, "content_sha256", show(&i.content_sha256));
    put_member(&mut m, "effect_id", show(&i.effect_id));
    put_member(&mut m, "input_sha256", show(&i.input_sha256));
    put_member(&mut m, "post_sha256", show(&i.post_sha256));
    put_member(&mut m, "project", show(&i.project));
    put_member(&mut m, "published_at", show(&i.published_at));
    put_member(&mut m, "result", result_json(&i.result));
    put_member(&mut m, "title", show(&i.title));
    let r = object_of(m);
    assert(r@->Obj_0 =~= index_view(*i)->Obj_0);
    r
}

// ---------- what a reader finds ----------

proof fn index_fields(i: OutboxIndex)
    ensures
        json::field(index_view(i), "attachments"@) == Some(
            JsonView::Arr(records_view(i.attachments@)),
        ),
        json::field_str(index_view(i), "effect_id"@) == Some(i.effect_id@),
        json::field_str(index_view(i), "input_sha256"@) == Some(i.input_sha256@),
        json::field(index_view(i), "result"@) == Some(result_view(i.result)),
{
    reveal_strlit("attachments");
    reveal_strlit("content_sha256");
    reveal_strlit("effect_id");
    reveal_strlit("input_sha256");
    reveal_strlit("post_sha256");
    reveal_strlit("project");
    reveal_strlit("published_at");
    reveal_strlit("result");
    assert("attachments"@.len() == 11 && "content_sha256"@.len() == 14 && "effect_id"@.len() == 9);
    assert("input_sha256"@.len() == 12 && "post_sha256"@.len() == 11 && "project"@.len() == 7);
    assert("published_at"@.len() == 12 && "result"@.len() == 6);
    assert("input_sha256"@[0] != "published_at"@[0]);
    reveal_with_fuel(json::entry, 9);
}

proof fn record_fields(a: AttachmentRecord)
    ensures
        json::field_str(record_view(a), "name"@) == Some(a.name@),
        json::field_str(record_view(a), "sha256"@) == Some(a.sha256@),
{
    reveal_strlit("bytes");
    reveal_strlit("name");
    reveal_strlit("sha256");
    assert("bytes"@.len() == 5 && "name"@.len() == 4 && "sha256"@.len() == 6);
    reveal_with_fuel(json::entry, 4);
}

proof fn record_names(v: Seq<AttachmentRecord>)
    ensures
        local::listed_names(records_view(v)) == v.map_values(|a: AttachmentRecord| a.name@),
    decreases v.len(),
{
    if v.len() > 0 {
        record_names(v.drop_last());
        record_fields(v.last());
        assert(records_view(v).drop_last() =~= records_view(v.drop_last()));
        assert(records_view(v).last() == record_view(v.last()));
        assert(v.map_values(|a: AttachmentRecord| a.name@) =~= v.drop_last().map_values(
            |a: AttachmentRecord| a.name@,
        ).push(v.last().name@));
    } else {
        assert(records_view(v) =~= seq![]);
        assert(v.map_values(|a: AttachmentRecord| a.name@) =~= seq![]);
    }
}

/// A second run with the input that an item records gets the outcome that
/// the item records; a run with any other input is refused.
pub proof fn a_published_item_replays(i: OutboxIndex, input_sha: Seq<char>, key: Seq<char>)
    ensures
        input_sha == i.input_sha256@ ==> local::replayed(index_view(i), input_sha, key) == Ok::<
            JsonView,
            Seq<char>,
        >(result_view(i.result)),
        input_sha != i.input_sha256@ ==> local::replayed(index_view(i), input_sha, key) is Err,
{
    index_fields(i);
}

/// The index that stands under a project, among those of one effect id.
pub open spec fn own_index(found: Seq<(String, String)>, project: Seq<char>) -> Option<Seq<char>>
    decreases found.len(),
{
    if found.len() == 0 {
        None
    } else if found[0].0@ == project {
        Some(found[0].1@)
    } else {
        own_index(found.drop_first(), project)
    }
}

pub open spec fn collision(key: Seq<char>) -> Seq<char> {
    "outbox item "@ + key + " exists under a different input — refusing"@
}

/// What a run finds under its effect id before it reads anything else,
/// `found` being the indices there, each with its project: the outcome of
/// an earlier run with the same input, nothing where no run came before,
/// else a refusal. An item of another project came of another input.
pub open spec fn prior(
    found: Seq<(String, String)>,
    exists_now: bool,
    project: Seq<char>,
    input_sha: Seq<char>,
    key: Seq<char>,
) -> Result<Option<JsonView>, Seq<char>> {
    match own_index(found, project) {
        Some(t) => match json::parsed(t) {
            Ok(index) => match local::replayed(index, input_sha, key) {
                Ok(result) => Ok(Some(result)),
                Err(e) => Err(e),
            },
            Err(e) => Err("the recorded outbox index does not parse: "@ + e),
        },
        None => if found.len() > 0 {
            Err(collision(key))
        } else if exists_now {
            Err("outbox item "@ + key + " exists without an index — refusing to overwrite"@)
        } else {
            Ok(None)
        },
    }
}

fn own_index_of<'a>(found: &'a Vec<(String, String)>, project: &str) -> (r: Option<&'a str>)
    ensures
        r.deep_view() == own_index(found@, project@),
{
    let mut i: usize = 0;
    assert(found@.skip(0) =~= found@);
    while i < found.len()
        invariant
            i <= found@.len(),
            own_index(found@, project@) == own_index(found@.skip(i as int), project@),
        decreases found.len() - i,
    {
        assert(found@.skip(i as int).drop_first() =~= found@.skip(i + 1));
        assert(found@.skip(i as int)[0] == found@[i as int]);
        if text::eq(found[i].0.as_str(), project) {
            return Some(found[i].1.as_str());
        }
        i = i + 1;
    }
    None
}

fn collision_of(key: &str) -> (r: String)
    ensures
        r@ == collision(key@),
{
    "outbox item ".to_owned().concat(key).concat(" exists under a different input — refusing")
}

/// What a run finds under its effect id: the indices that can be read
/// there, each with its project, and whether its own item stands. An index
/// that an earlier publication left gives that publication's outcome to
/// the same input, and a refusal to any other, of whatever project.
pub fn earlier_run(
    found: &Vec<(String, String)>,
    exists_now: bool,
    project: &str,
    input_sha: &str,
    key: &str,
) -> (r: Result<Option<Json>, String>)
    ensures
        match r {
            Ok(Some(j)) => prior(found@, exists_now, project@, input_sha@, key@) == Ok::<
                Option<JsonView>,
                Seq<char>,
            >(Some(j@)),
            Ok(None) => prior(found@, exists_now, project@, input_sha@, key@) == Ok::<
                Option<JsonView>,
                Seq<char>,
            >(None),
            Err(e) => prior(found@, exists_now, project@, input_sha@, key@) == Err::<
                Option<JsonView>,
                Seq<char>,
            >(e@),
        },
        forall|i: OutboxIndex|
            own_index(found@, project@) == Some(json::printed(#[trigger] index_view(i))) ==> {
                if i.input_sha256@ == input_sha@ {
                    r is Ok && r->Ok_0 is Some && r->Ok_0->0@ == result_view(i.result)
                } else {
                    r is Err && r->Err_0@ == collision(key@)
                }
            },
        found@.len() > 0 && own_index(found@, project@) is None ==> r is Err && r->Err_0@
            == collision(key@),
{
    match own_index_of(found, project) {
        Some(t) => {
            let index = match read_index(t) {
                Ok(index) => index,
                Err(e) => {
                    proof {
                        indices_are_plain();
                    }
                    return Err(e);
                },
            };
            proof {
                indices_are_plain();
                assert forall|i: OutboxIndex|
                    t@ == json::printed(#[trigger] index_view(i)) implies index@ == index_view(
                    i,
                ) && local::replayed(index@, input_sha@, key@) == (if i.input_sha256@
                    == input_sha@ {
                    Ok::<JsonView, Seq<char>>(result_view(i.result))
                } else {
                    Err(collision(key@))
                }) by {
                    index_fields(i);
                }
            }
            match replay(&index, input_sha, key) {
                Ok(result) => Ok(Some(json::copy(result))),
                Err(e) => Err(e),
            }
        },
        None => if found.len() > 0 {
            Err(collision_of(key))
        } else {
            match refuse_unindexed(key, exists_now) {
                Ok(()) => Ok(None),
                Err(e) => Err(e),
            }
        },
    }
}

proof fn begins_below(a: Seq<char>, b: Seq<char>)
    requires
        a.len() > 1,
        b.len() > 1,
        a[0] < b[0] || (a[0] == b[0] && a[1] < b[1]),
    ensures
        text::lt(a, b),
{
    reveal_with_fuel(text::lt, 2);
}

proof fn record_is_plain(a: AttachmentRecord, depth: nat)
    requires
        depth > 0,
    ensures
        json::plain(record_view(a), depth),
{
    let m = record_view(a)->Obj_0;
    reveal_strlit("bytes");
    reveal_strlit("name");
    reveal_strlit("sha256");
    assert(json::plain(count(a.bytes as nat), (depth - 1) as nat));
    assert(m[0].key[0] == 'b' && m[1].key[0] == 'n' && m[2].key[0] == 's');
    assert forall|i: int, k: int| 0 <= i < k < m.len() implies text::lt(
        (#[trigger] m[i]).key,
        (#[trigger] m[k]).key,
    ) by {
        begins_below(m[i].key, m[k].key);
    }
    assert forall|i: int| 0 <= i < m.len() implies json::plain(
        (#[trigger] m[i]).value,
        (depth - 1) as nat,
    ) by {
        assert(i == 0 || i == 1 || i == 2);
    }
}

proof fn result_is_plain(r: PublishResult, depth: nat)
    requires
        depth > 0,
    ensures
        json::plain(result_view(r), depth),
{
    let m = result_view(r)->Obj_0;
    reveal_strlit("attachments");
    reveal_strlit("board_url");
    reveal_strlit("path");
    reveal_strlit("platform_ref");
    reveal_strlit("url");
    assert(json::plain(count(r.attachments as nat), (depth - 1) as nat));
    assert(m[0].key[0] == 'a' && m[1].key[0] == 'b' && m[2].key[0] == 'p' && m[2].key[1] == 'a');
    assert(m[3].key[0] == 'p' && m[3].key[1] == 'l' && m[4].key[0] == 'u');
    assert forall|i: int, k: int| 0 <= i < k < m.len() implies text::lt(
        (#[trigger] m[i]).key,
        (#[trigger] m[k]).key,
    ) by {
        begins_below(m[i].key, m[k].key);
    }
    assert forall|i: int| 0 <= i < m.len() implies json::plain(
        (#[trigger] m[i]).value,
        (depth - 1) as nat,
    ) by {
        assert(i == 0 || i == 1 || i == 2 || i == 3 || i == 4);
    }
}

proof fn index_is_plain(i: OutboxIndex)
    ensures
        json::plain(index_view(i), json::DEPTH_LIMIT as nat),
{
    let m = index_view(i)->Obj_0;
    let d = json::DEPTH_LIMIT as nat;
    assert forall|k: int| 0 <= k < i.attachments@.len() implies json::plain(
        #[trigger] records_view(i.attachments@)[k],
        (d - 2) as nat,
    ) by {
        record_is_plain(i.attachments@[k], (d - 2) as nat);
    }
    assert(json::plain(JsonView::Arr(records_view(i.attachments@)), (d - 1) as nat));
    result_is_plain(i.result, (d - 1) as nat);
    reveal_strlit("attachments");
    reveal_strlit("content_sha256");
    reveal_strlit("effect_id");
    reveal_strlit("input_sha256");
    reveal_strlit("post_sha256");
    reveal_strlit("project");
    reveal_strlit("published_at");
    reveal_strlit("result");
    reveal_strlit("title");
    assert(m[0].key[0] == 'a' && m[1].key[0] == 'c' && m[2].key[0] == 'e' && m[3].key[0] == 'i');
    assert(m[4].key[0] == 'p' && m[4].key[1] == 'o' && m[5].key[0] == 'p' && m[5].key[1] == 'r');
    assert(m[6].key[0] == 'p' && m[6].key[1] == 'u' && m[7].key[0] == 'r' && m[8].key[0] == 't');
    assert forall|j: int, k: int| 0 <= j < k < m.len() implies text::lt(
        (#[trigger] m[j]).key,
        (#[trigger] m[k]).key,
    ) by {
        begins_below(m[j].key, m[k].key);
    }
    assert forall|j: int| 0 <= j < m.len() implies json::plain(
        (#[trigger] m[j]).value,
        (d - 1) as nat,
    ) by {
        assert(j == 0 || j == 1 || j == 2 || j == 3 || j == 4 || j == 5 || j == 6 || j == 7 || j
            == 8);
    }
}

proof fn indices_are_plain()
    ensures
        forall|i: OutboxIndex| json::plain(#[trigger] index_view(i), json::DEPTH_LIMIT as nat),
{
    assert forall|i: OutboxIndex| json::plain(
        #[trigger] index_view(i),
        json::DEPTH_LIMIT as nat,
    ) by {
        index_is_plain(i);
    }
}

/// Two runs under one effect id: the first finds nothing and publishes.
/// Where its index reads back as it was written, a second run with the
/// same input gets the first outcome, whatever lies in the worktree by
/// then. A second run with any other input is refused: one of another
/// project always, one of the same project where the digests differ. So
/// nothing is published again, nor is what was published replaced.
pub proof fn a_second_run_publishes_nothing(
    first: Staged,
    published: Publication,
    second: Staged,
    input: Seq<char>,
    again: Seq<char>,
    named: Result<(), Seq<char>>,
    named_again: Result<(), Seq<char>>,
    item: (String, String),
    key: Seq<char>,
)
    requires
        local::staging(local::TOOL_PUBLISH@, json::parsed(input), named) == Ok::<
            PostView,
            Seq<char>,
        >(first.post@),
        first.input_sha@ == local::input_digest(input),
        published.index.input_sha256@ == first.input_sha@,
        local::staging(local::TOOL_PUBLISH@, json::parsed(again), named_again) == Ok::<
            PostView,
            Seq<char>,
        >(second.post@),
        second.input_sha@ == local::input_digest(again),
        item.0@ == first.post@.project,
        json::parsed(item.1@) == Ok::<JsonView, Seq<char>>(index_view(published.index)),
    ensures
        prior(seq![], false, first.post@.project, first.input_sha@, key) == Ok::<
            Option<JsonView>,
            Seq<char>,
        >(None),
        again == input ==> prior(
            seq![item],
            second.post@.project == first.post@.project,
            second.post@.project,
            second.input_sha@,
            key,
        ) == Ok::<Option<JsonView>, Seq<char>>(Some(result_view(published.index.result))),
        local::input_digest(again) != local::input_digest(input) || second.post@.project
            != first.post@.project ==> prior(
            seq![item],
            second.post@.project == first.post@.project,
            second.post@.project,
            second.input_sha@,
            key,
        ) == Err::<Option<JsonView>, Seq<char>>(collision(key)),
{
    index_fields(published.index);
    reveal_with_fuel(own_index, 2);
    assert(seq![item].drop_first() =~= seq![]);
    assert(seq![item][0] == item);
}

/// A run of any tool but `publish` is refused before anything is read.
pub proof fn another_tool_is_refused(
    tool: Seq<char>,
    input: Result<JsonView, Seq<char>>,
    named: Result<(), Seq<char>>,
)
    requires
        tool != local::TOOL_PUBLISH@,
    ensures
        local::staging(tool, input, named) == Err::<PostView, Seq<char>>(
            "local has no tool '"@ + tool + "' — the table declares only publish"@,
        ),
{
}

/// The files that a publish leaves: the post, and where there are
/// attachments a directory that holds each under its name and no other.
pub open spec fn holds_exactly(f: ItemFiles, post: Seq<u8>, attachments: Seq<Attachment>) -> bool {
    &&& f.post is Some && f.post->0@ == post
    &&& f.has_dir == (attachments.len() > 0)
    &&& attachments.len() > 0 ==> {
        &&& f.listing is Some
        &&& f.listing->0.deep_view().to_multiset() == attachments.map_values(
            |a: Attachment| a.name@,
        ).to_multiset()
        &&& forall|k: int|
            0 <= k < attachments.len() ==> local::file_in(
                f.files@,
                (#[trigger] attachments[k]).name@,
            ) == Some(attachments[k].bytes@)
    }
}

/// What was published reads back: an item that holds exactly the files
/// that its index was made of is intact, and is found by its input.
pub proof fn a_published_item_reads_back(
    i: OutboxIndex,
    item: Json,
    post: Seq<u8>,
    attachments: Seq<Attachment>,
    f: ItemFiles,
)
    requires
        item@ == index_view(i),
        i.post_sha256@ == hash::sha256_hex(post),
        local::recorded(attachments, i.attachments@),
        holds_exactly(f, post, attachments),
    ensures
        local::verified_by((item, f), i.input_sha256@, i.post_sha256@),
{
    index_fields(i);
    record_names(i.attachments@);
    let list = local::listed(item@);
    let names = local::listed_names(list);
    assert(list == records_view(i.attachments@));
    assert(names =~= attachments.map_values(|a: Attachment| a.name@));
    if attachments.len() > 0 {
        assert forall|k: int| 0 <= k < list.len() implies local::present(
            #[trigger] list[k],
            f.files@,
        ) by {
            let a = i.attachments@[k];
            assert(list[k] == record_view(a));
            record_fields(a);
            assert(a.name@ == attachments[k].name@);
            assert(a.sha256@ == hash::sha256_hex(attachments[k].bytes@));
        }
    }
}

/// A post that was changed after it was published does not read back,
/// unless the change keeps its digest.
pub proof fn a_changed_post_does_not_read_back(
    i: OutboxIndex,
    item: Json,
    f: ItemFiles,
)
    requires
        item@ == index_view(i),
        f.post is None || hash::sha256_hex(f.post->0@) != i.post_sha256@,
    ensures
        !local::verified_by((item, f), i.input_sha256@, i.post_sha256@),
{
}

} // verus!
