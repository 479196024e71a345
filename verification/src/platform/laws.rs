//! What is published, enrolled and kept, told by what was handed in.
use crate::hash;
use crate::json;
use crate::json::JsonView;
use crate::paths;
use crate::platform;
use crate::platform::custody;
use crate::platform::local;
use crate::platform::local::{Attachment, ItemFiles, PostView, SafePathView};
use crate::text;
use vstd::prelude::*;

verus! {

// ---------- the post ----------

proof fn attachments_one_by_one(list: Seq<JsonView>)
    requires
        local::attachments_of(list) is Ok,
    ensures
        local::attachments_of(list)->Ok_0.len() == list.len(),
        forall|i: int|
            0 <= i < list.len() ==> list[i] == JsonView::Str(
                (#[trigger] local::attachments_of(list)->Ok_0[i]).0,
            ) && local::safe_path(local::attachments_of(list)->Ok_0[i].0) == Ok::<
                SafePathView,
                Seq<char>,
            >(local::attachments_of(list)->Ok_0[i].1),
    decreases list.len(),
{
    if list.len() > 0 {
        let rest = list.drop_last();
        attachments_one_by_one(rest);
        let before = local::attachments_of(rest)->Ok_0;
        let all = local::attachments_of(list)->Ok_0;
        assert forall|i: int| 0 <= i < list.len() implies list[i] == JsonView::Str(
            (#[trigger] all[i]).0,
        ) && local::safe_path(all[i].0) == Ok::<SafePathView, Seq<char>>(all[i].1) by {
            if i < rest.len() {
                assert(all[i] == before[i]);
                assert(rest[i] == list[i]);
            }
        }
    }
}

proof fn plain_attachments_pass(list: Seq<JsonView>)
    requires
        forall|i: int|
            0 <= i < list.len() ==> (#[trigger] list[i]) is Str && local::safe_path(list[i]->Str_0)
                is Ok,
    ensures
        local::attachments_of(list) is Ok,
    decreases list.len(),
{
    if list.len() > 0 {
        let rest = list.drop_last();
        assert forall|i: int| 0 <= i < rest.len() implies (#[trigger] rest[i]) is Str
            && local::safe_path(rest[i]->Str_0) is Ok by {
            assert(rest[i] == list[i]);
        }
        plain_attachments_pass(rest);
        assert(list.last() == list[list.len() - 1]);
    }
}

/// A post is what its input says: its project, its title, its body, and
/// each attachment of the list, in order, as given and as checked.
pub proof fn a_post_says_what_its_input_says(input: JsonView, named: Result<(), Seq<char>>)
    requires
        local::post_of(input, named) is Ok,
    ensures
        ({
            let p = local::post_of(input, named)->Ok_0;
            &&& json::field(input, "project"@) == Some(JsonView::Str(p.project))
            &&& json::field(input, "title"@) == Some(JsonView::Str(p.title))
            &&& json::field(input, "body"@) == Some(JsonView::Str(p.body))
            &&& 1 <= p.title.len() <= 200
            &&& vstd::utf8::encode_utf8(p.body).len() <= 262144
            &&& p.attachments.len() <= 50
            &&& match json::field(input, "attachments"@) {
                None => p.attachments.len() == 0,
                Some(JsonView::Arr(a)) => {
                    &&& p.attachments.len() == a.len()
                    &&& forall|i: int|
                        0 <= i < a.len() ==> a[i] == JsonView::Str((#[trigger] p.attachments[i]).0)
                            && local::safe_path(p.attachments[i].0) == Ok::<
                            SafePathView,
                            Seq<char>,
                        >(p.attachments[i].1)
                },
                Some(_) => false,
            }
        }),
{
    if let Some(JsonView::Arr(a)) = json::field(input, "attachments"@) {
        attachments_one_by_one(a);
    }
}

/// An input that has the three texts within their bounds, a project that
/// is a safe name, and a list of checked paths is a post.
pub proof fn a_whole_input_is_a_post(input: JsonView)
    requires
        json::field(input, "project"@) is Some && json::field(input, "project"@)->0 is Str,
        json::field(input, "title"@) is Some && json::field(input, "title"@)->0 is Str,
        1 <= json::field(input, "title"@)->0->Str_0.len() <= 200,
        json::field(input, "body"@) is Some && json::field(input, "body"@)->0 is Str,
        vstd::utf8::encode_utf8(json::field(input, "body"@)->0->Str_0).len() <= 262144,
        match json::field(input, "attachments"@) {
            None => true,
            Some(JsonView::Arr(a)) => a.len() <= 50 && forall|i: int|
                0 <= i < a.len() ==> (#[trigger] a[i]) is Str && local::safe_path(a[i]->Str_0)
                    is Ok,
            Some(_) => false,
        },
    ensures
        local::post_of(input, Ok(())) is Ok,
{
    if let Some(JsonView::Arr(a)) = json::field(input, "attachments"@) {
        plain_attachments_pass(a);
    }
}

/// A path passes exactly where it is not empty, no piece of it is `..`,
/// and it names something or begins at the root; what passes keeps every
/// named piece, in order.
pub proof fn a_checked_path_is_whole(raw: Seq<char>)
    ensures
        local::safe_path(raw) is Ok <==> raw.len() > 0 && !paths::parts(raw).contains(".."@) && (
        raw[0] == '/' || paths::parts(raw).len() > 0),
        local::safe_path(raw) is Ok ==> local::safe_path(raw)->Ok_0.parts == paths::parts(raw)
            && local::safe_path(raw)->Ok_0.absolute == (raw[0] == '/'),
{
}

proof fn listing_holds(v: Seq<(Seq<char>, SafePathView)>, i: int)
    requires
        0 <= i < v.len(),
    ensures
        text::holds(local::listing(v), "\n  "@ + v[i].0),
    decreases v.len(),
{
    let rest = v.drop_last();
    let head = local::listing(rest);
    let line = "\n  "@ + v[i].0;
    let all = local::listing(v);
    if i == v.len() - 1 {
        assert(all =~= head + line);
        assert(all.subrange(head.len() as int, head.len() as int + line.len()) =~= line);
        assert(text::at(all, line, head.len() as int));
    } else {
        assert(rest[i] == v[i]);
        listing_holds(rest, i);
        let k = choose|k: int| text::at(head, line, k);
        assert(all.subrange(k, k + line.len()) =~= head.subrange(k, k + line.len()));
        assert(text::at(all, line, k));
    }
}

/// The preview names every attachment that will land, the account and the
/// project, and ends with nothing else where there is none.
pub proof fn the_preview_names_every_attachment(account: Seq<char>, p: PostView, i: int)
    requires
        0 <= i < p.attachments.len(),
    ensures
        text::holds(
            local::preview_text(account, "publish"@, Ok::<PostView, Seq<char>>(p)),
            "\n  "@ + p.attachments[i].0,
        ),
        local::preview_text(account, "publish"@, Ok::<PostView, Seq<char>>(p)).len()
            > p.title.len() + p.body.len() + account.len() + p.project.len(),
{
    let all = local::preview_text(account, "publish"@, Ok::<PostView, Seq<char>>(p));
    let head = "Publish to the local outbox (account "@ + account + ", project "@ + p.project
        + "):\n\n"@ + local::rendered(p.title, p.body) + "\n\nattachments:"@;
    let list = local::listing(p.attachments);
    let line = "\n  "@ + p.attachments[i].0;
    assert(all =~= head + list);
    listing_holds(p.attachments, i);
    let k = choose|k: int| text::at(list, line, k);
    let at = head.len() as int + k;
    assert(all.subrange(at, at + line.len()) =~= list.subrange(k, k + line.len()));
    assert(text::at(all, line, at));
    reveal_strlit("# ");
}

/// A rendered post is its title as a heading, an empty line, and its body
/// to the last character.
pub proof fn a_rendered_post_keeps_its_body(title: Seq<char>, body: Seq<char>)
    ensures
        ({
            let r = local::rendered(title, body);
            &&& r.len() == title.len() + body.len() + 4
            &&& r[0] == '#' && r[1] == ' '
            &&& r.subrange(2, 2 + title.len() as int) == title
            &&& r[2 + title.len() as int] == '\n' && r[3 + title.len() as int] == '\n'
            &&& r.skip(4 + title.len() as int) == body
        }),
{
    reveal_strlit("# ");
    reveal_strlit("\n\n");
    let r = local::rendered(title, body);
    assert(r.subrange(2, 2 + title.len() as int) =~= title);
    assert(r.skip(4 + title.len() as int) =~= body);
}

/// What an attachment below the worktree is called: a relative path as it
/// is, an absolute one without the root that it must begin with.
pub proof fn an_attachment_is_named_below_the_root(root: Seq<char>, raw: Seq<char>)
    requires
        local::safe_path(raw) is Ok,
        paths::parts(raw).len() > 0,
        raw[0] == '/' ==> paths::parts(raw).len() > paths::parts(root).len() && paths::parts(
            raw,
        ).take(paths::parts(root).len() as int) == paths::parts(root),
    ensures
        local::inside(root, local::safe_path(raw)->Ok_0, raw) == Ok::<Seq<Seq<char>>, Seq<char>>(
            if raw[0] == '/' {
                paths::parts(raw).skip(paths::parts(root).len() as int)
            } else {
                paths::parts(raw)
            },
        ),
{
    let p = paths::parts(raw);
    let q = paths::parts(root);
    if raw[0] == '/' {
        assert(q.is_prefix_of(p)) by {
            assert(p.subrange(0, q.len() as int) =~= p.take(q.len() as int));
        }
    }
}

/// The content of an item is told by its post and by each attachment's
/// name and bytes: an item with one attachment is digested with the line
/// of that one, one without any with an empty line.
pub proof fn the_content_digest_covers_the_attachment(post_sha: Seq<char>, a: Attachment)
    ensures
        local::content_digest(post_sha, seq![a]) == hash::sha256_hex(
            vstd::utf8::encode_utf8(
                post_sha + "\n"@ + (a.name@ + " "@ + hash::sha256_hex(a.bytes@)),
            ),
        ),
        local::content_digest(post_sha, seq![]) == hash::sha256_hex(
            vstd::utf8::encode_utf8(post_sha + "\n"@ + seq![]),
        ),
{
    assert(local::attachment_lines(seq![a]) =~= seq![local::attachment_line(a)]);
    assert(local::attachment_lines(seq![]) =~= seq![]);
}

/// An item whose directory holds a file that its index does not name, or
/// lacks one that it names, does not read back.
pub proof fn a_foreign_file_is_noticed(f: ItemFiles, index: JsonView, post_sha: Seq<char>)
    requires
        local::intact(f, index, post_sha),
    ensures
        f.post is Some && hash::sha256_hex(f.post->0@) == post_sha,
        local::listed_names(local::listed(index)).len() == 0 ==> !f.has_dir,
        local::listed_names(local::listed(index)).len() > 0 ==> f.listing is Some
            && f.listing->0@.len() == local::listed_names(local::listed(index)).len() && forall|
            n: Seq<char>,
        | #[trigger]
            f.listing->0.deep_view().contains(n) <==> local::listed_names(
                local::listed(index),
            ).contains(n),
{
    let names = local::listed_names(local::listed(index));
    if names.len() > 0 {
        let l = f.listing->0.deep_view();
        vstd::seq_lib::to_multiset_len(l);
        vstd::seq_lib::to_multiset_len(names);
        assert forall|n: Seq<char>| #[trigger] l.contains(n) <==> names.contains(n) by {
            vstd::seq_lib::to_multiset_contains(l, n);
            vstd::seq_lib::to_multiset_contains(names, n);
        }
    }
}

// ---------- enrolment ----------

/// A token of a person is refused by its shape, whatever it is declared
/// as; a token that is declared as anything but scoped is refused too.
pub proof fn a_persons_token_is_refused(params: JsonView, token: Seq<char>, rest: Seq<char>)
    requires
        json::field(params, "token"@) == Some(JsonView::Str(token)),
        ({
            let t = text::trim(token);
            ||| t == "ghu_"@ + rest
            ||| t == "gho_"@ + rest
            ||| t == "ghp_"@ + rest
            ||| t == "ghr_"@ + rest
            ||| t == "github_pat_"@ + rest
            ||| t == "glpat-"@ + rest
            ||| t.len() == 0
            ||| exists|i: int| 0 <= i < t.len() && (t[i] == ' ' || #[trigger] t[i] == '\n')
            ||| json::field_str(params, "class"@) is Some && json::field_str(params, "class"@)
                != Some("scoped"@)
        }),
    ensures
        platform::token_refusal(params) is Some,
{
    let t = text::trim(token);
    if t == "ghu_"@ + rest {
        begins_with("ghu_"@, rest);
    } else if t == "gho_"@ + rest {
        begins_with("gho_"@, rest);
    } else if t == "ghp_"@ + rest {
        begins_with("ghp_"@, rest);
    } else if t == "ghr_"@ + rest {
        begins_with("ghr_"@, rest);
    } else if t == "github_pat_"@ + rest {
        begins_with("github_pat_"@, rest);
    } else if t == "glpat-"@ + rest {
        begins_with("glpat-"@, rest);
    } else if exists|i: int| 0 <= i < t.len() && (t[i] == ' ' || #[trigger] t[i] == '\n') {
        let i = choose|i: int| 0 <= i < t.len() && (t[i] == ' ' || #[trigger] t[i] == '\n');
        assert(text::white(t[i]));
    }
}

proof fn begins_with(p: Seq<char>, rest: Seq<char>)
    ensures
        text::begins(p + rest, p),
{
    assert((p + rest).subrange(0, p.len() as int) =~= p);
}

/// A token without blanks, within its size and of no person's shape
/// enrolls, declared as scoped or not declared.
pub proof fn a_scoped_token_enrolls(params: JsonView, token: Seq<char>)
    requires
        json::field(params, "token"@) == Some(JsonView::Str(token)),
        json::field_str(params, "class"@) is None || json::field_str(params, "class"@) == Some(
            "scoped"@,
        ),
        text::trim(token).len() > 0,
        vstd::utf8::encode_utf8(text::trim(token)).len() <= 8192,
        forall|i: int| 0 <= i < text::trim(token).len() ==> !text::white(#[trigger] text::trim(token)[i]),
        text::trim(token)[0] != 'g',
    ensures
        platform::token_refusal(params) is None,
{
    let t = text::trim(token);
    reveal_strlit("ghu_");
    reveal_strlit("gho_");
    reveal_strlit("ghp_");
    reveal_strlit("ghr_");
    reveal_strlit("github_pat_");
    reveal_strlit("glpat-");
    not_begins(t, "ghu_"@);
    not_begins(t, "gho_"@);
    not_begins(t, "ghp_"@);
    not_begins(t, "ghr_"@);
    not_begins(t, "github_pat_"@);
    not_begins(t, "glpat-"@);
}

proof fn not_begins(t: Seq<char>, p: Seq<char>)
    requires
        t.len() > 0,
        p.len() > 0,
        t[0] != p[0],
    ensures
        !text::begins(t, p),
{
    if text::begins(t, p) {
        assert(t.subrange(0, p.len() as int)[0] == t[0]);
    }
}

// ---------- custody ----------

/// Two keys whose texts digest differently have files of their own, and
/// two different keys are looked up by different arguments.
pub proof fn keys_do_not_share_a_place(
    p: Seq<char>,
    a: Seq<char>,
    q: Seq<char>,
    b: Seq<char>,
)
    ensures
        custody::tool_args(p, a) == custody::tool_args(q, b) <==> p == q && a == b,
        custody::file_name(p, a) == custody::file_name(q, b) <==> hash::sha256_hex(
            vstd::utf8::encode_utf8(p + "\n"@ + a),
        ) == hash::sha256_hex(vstd::utf8::encode_utf8(q + "\n"@ + b)),
{
    let x = custody::tool_args(p, a);
    let y = custody::tool_args(q, b);
    assert(x[3] == p && x[4] == a && y[3] == q && y[4] == b);
    let h = hash::sha256_hex(vstd::utf8::encode_utf8(p + "\n"@ + a));
    let k = hash::sha256_hex(vstd::utf8::encode_utf8(q + "\n"@ + b));
    let tail = ".cred"@;
    if h + tail == k + tail {
        assert((h + tail).len() == h.len() + tail.len());
        assert((k + tail).len() == k.len() + tail.len());
        assert((h + tail).take(h.len() as int) =~= h);
        assert((k + tail).take(k.len() as int) =~= k);
    }
}

} // verus!
