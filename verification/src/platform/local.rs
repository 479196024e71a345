//! The built-in `local` platform: no network, no credential of its own.
//! Its one tool `publish` writes an approved post into the local outbox,
//! `<outbox>/<project>/<effect_id>/`: the rendered post, byte copies of
//! its attachments, and an index that records the digests and the
//! outcome.
//!
//! Attachments are confined to the requesting task's worktree. A second
//! run under the same effect id replays the recorded outcome where the
//! input is byte-identical; any other input is refused, whatever its
//! project.
use crate::hash;
use crate::json::{self, Json, JsonView, Member};
use crate::order;
use crate::paths;
use crate::text;
use vstd::prelude::*;

verus! {

/// The name this platform is registered under.
pub const PLATFORM: &'static str = "local";

/// The one tool it declares.
pub const TOOL_PUBLISH: &'static str = "publish";

/// The version of its tool table, which is its own manifest.
pub const MANIFEST_VERSION: &'static str = "cadence-local/1";

/// Bound on the markdown body (bytes).
pub const BODY_CAP: usize = 262144;

/// Bound on the title (chars).
pub const TITLE_CAP: usize = 200;

/// Bound on the declared attachment count.
pub const ATTACHMENT_CAP: usize = 50;

/// Bound on one attachment's size (bytes).
pub const ATTACHMENT_BYTES_CAP: u64 = 33554432;

/// The longest file name the common filesystems take (bytes).
pub const NAME_CAP: usize = 255;

/// How many items the outbox lists.
pub const LIST_CAP: usize = 500;

/// The preview excerpt of an outbox item (chars).
pub const ITEM_PREVIEW_CAP: usize = 400;

pub open spec fn outbox_dir(xdg_data_home: Option<Seq<char>>, home: Option<Seq<char>>) -> Seq<char> {
    let base = match xdg_data_home {
        Some(x) if x.len() > 0 => x,
        _ => match home {
            Some(h) => paths::join(h, ".local/share"@),
            None => "."@,
        },
    };
    paths::join(paths::join(base, "cadence"@), "outbox"@)
}

/// The outbox below a data directory: `XDG_DATA_HOME` where it is set and
/// not empty, else `.local/share` in the home directory, else the current
/// directory.
pub fn default_outbox_dir(xdg_data_home: Option<&str>, home: Option<&str>) -> (r: String)
    ensures
        r@ == outbox_dir(xdg_data_home.deep_view(), home.deep_view()),
{
    let home_base = match home {
        Some(h) => paths::join_of(h, ".local/share"),
        None => ".".to_owned(),
    };
    let base = match xdg_data_home {
        Some(x) => if x.is_empty() {
            home_base
        } else {
            x.to_owned()
        },
        None => home_base,
    };
    paths::join_of(paths::join_of(base.as_str(), "cadence").as_str(), "outbox")
}

/// The `local` platform of a daemon: where its state is, where its posts
/// go, and the origin of the board that links to them.
#[derive(Debug, Clone)]
pub struct LocalAdapter {
    pub state_dir: String,
    pub outbox: String,
    pub board_url: String,
}

/// The platform with its outbox and board given.
pub fn register_at(state_dir: &str, outbox: String, board_url: String) -> (r: LocalAdapter)
    ensures
        r.state_dir@ == state_dir@,
        r.outbox@ == outbox@,
        r.board_url@ == board_url@,
{
    LocalAdapter { state_dir: state_dir.to_owned(), outbox, board_url }
}

/// The platform of a daemon: the outbox under the data directory, and the
/// board on the port that was kept, else on 3010.
pub fn register(
    state_dir: &str,
    port: Option<u16>,
    xdg_data_home: Option<&str>,
    home: Option<&str>,
) -> (r: LocalAdapter)
    ensures
        r.state_dir@ == state_dir@,
        r.outbox@ == outbox_dir(xdg_data_home.deep_view(), home.deep_view()),
        r.board_url@ == "http://127.0.0.1:"@ + text::dec(
            match port {
                Some(p) => p as nat,
                None => 3010,
            },
        ),
{
    let port: u64 = match port {
        Some(p) => p as u64,
        None => 3010,
    };
    register_at(
        state_dir,
        default_outbox_dir(xdg_data_home, home),
        "http://127.0.0.1:".to_owned().concat(text::dec_of(port).as_str()),
    )
}

// ---------- attachment paths ----------

/// A path without `..`: whether it begins at the root, and its pieces.
#[derive(Debug)]
pub struct SafePath {
    pub absolute: bool,
    pub parts: Vec<String>,
}

pub struct SafePathView {
    pub absolute: bool,
    pub parts: Seq<Seq<char>>,
}

impl View for SafePath {
    type V = SafePathView;

    open spec fn view(&self) -> SafePathView {
        SafePathView { absolute: self.absolute, parts: self.parts.deep_view() }
    }
}

pub open spec fn attachment_text(raw: Seq<char>) -> Seq<char> {
    "attachment '"@ + raw + "'"@
}

fn attachment_text_of(raw: &str) -> (r: String)
    ensures
        r@ == attachment_text(raw@),
{
    "attachment '".to_owned().concat(raw).concat("'")
}

/// The syntactic half of confinement: no `..`, ever. A `.` is dropped;
/// an absolute path stays one.
pub open spec fn safe_path(raw: Seq<char>) -> Result<SafePathView, Seq<char>> {
    let parts = paths::parts(raw);
    if raw.len() == 0 {
        Err("an attachment path is empty"@)
    } else if parts.contains(".."@) {
        Err(attachment_text(raw) + ": `..` escapes the task worktree — refused"@)
    } else if !paths::absolute(raw) && parts.len() == 0 {
        Err(attachment_text(raw) + " names no file"@)
    } else {
        Ok(SafePathView { absolute: paths::absolute(raw), parts })
    }
}

/// Checks an attachment path.
pub fn check_path(raw: &str) -> (r: Result<SafePath, String>)
    ensures
        match r {
            Ok(p) => safe_path(raw@) == Ok::<SafePathView, Seq<char>>(p@),
            Err(e) => safe_path(raw@) == Err::<SafePathView, Seq<char>>(e@),
        },
{
    if raw.is_empty() {
        return Err("an attachment path is empty".to_owned());
    }
    let parts = paths::parts_of(raw);
    assert(parts.deep_view().len() == parts@.len());
    if text::has_name(&parts, "..") {
        return Err(
            attachment_text_of(raw).concat(": `..` escapes the task worktree — refused"),
        );
    }
    let absolute = paths::is_absolute(raw);
    if !absolute && parts.len() == 0 {
        return Err(attachment_text_of(raw).concat(" names no file"));
    }
    Ok(SafePath { absolute, parts })
}

/// The pieces of an attachment below the worktree `root`.
pub open spec fn inside(root: Seq<char>, rel: SafePathView, raw: Seq<char>) -> Result<
    Seq<Seq<char>>,
    Seq<char>,
> {
    let below = paths::parts(root);
    if rel.absolute && !paths::under(rel.parts, below) {
        Err(
            attachment_text(raw)
                + ": an absolute path must name a file inside the task worktree ("@ + root + ")"@,
        )
    } else {
        let inner = if rel.absolute {
            rel.parts.skip(below.len() as int)
        } else {
            rel.parts
        };
        if inner.len() == 0 {
            Err(attachment_text(raw) + " names the worktree itself, not a file"@)
        } else {
            Ok(inner)
        }
    }
}

/// Resolves an attachment against the canonical worktree root: its pieces
/// below the root. An absolute path must lie inside it.
pub fn confine(root: &str, rel: &SafePath, raw: &str) -> (r: Result<Vec<String>, String>)
    ensures
        match r {
            Ok(inner) => inside(root@, rel@, raw@) == Ok::<Seq<Seq<char>>, Seq<char>>(
                inner.deep_view(),
            ),
            Err(e) => inside(root@, rel@, raw@) == Err::<Seq<Seq<char>>, Seq<char>>(e@),
        },
{
    let below = paths::parts_of(root);
    let ghost d = rel.parts.deep_view();
    let ghost b = below.deep_view();
    if rel.absolute && !paths::is_under(&rel.parts, &below) {
        return Err(
            attachment_text_of(raw).concat(
                ": an absolute path must name a file inside the task worktree (",
            ).concat(root).concat(")"),
        );
    }
    let from: usize = if rel.absolute {
        below.len()
    } else {
        0
    };
    assert(b.len() == below@.len());
    assert(d.len() == rel.parts@.len());
    assert(rel.absolute ==> from <= d.len());
    let mut inner: Vec<String> = Vec::new();
    let mut i: usize = from;
    while i < rel.parts.len()
        invariant
            d == rel.parts.deep_view(),
            from <= i <= rel.parts@.len(),
            inner.deep_view() == d.subrange(from as int, i as int),
        decreases rel.parts.len() - i,
    {
        let ghost n0 = inner.deep_view();
        inner.push(rel.parts[i].clone());
        assert(inner.deep_view() =~= n0.push(d[i as int]));
        i = i + 1;
        assert(d.subrange(from as int, i as int) =~= d.subrange(from as int, i - 1).push(d[i - 1]));
    }
    assert(d.subrange(from as int, d.len() as int) =~= d.skip(from as int));
    assert(d.skip(0) =~= d);
    assert(inner.deep_view().len() == inner@.len());
    if inner.len() == 0 {
        return Err(attachment_text_of(raw).concat(" names the worktree itself, not a file"));
    }
    Ok(inner)
}

/// One attachment, read below the worktree.
#[derive(Debug)]
pub struct Attachment {
    /// The name it lands under in `attachments/`.
    pub name: String,
    pub bytes: Vec<u8>,
}

/// Accepts the opened file of an attachment: a regular one, not larger
/// than the cap, under a name the filesystems take.
pub fn take_attachment(
    inner: &Vec<String>,
    raw: &str,
    is_file: bool,
    len: u64,
    read: Result<Vec<u8>, String>,
) -> (r: Result<Attachment, String>)
    requires
        inner@.len() > 0,
    ensures
        ({
            let name = inner.deep_view().last();
            if !is_file {
                r is Err && r->Err_0@ == attachment_text(raw@) + " is not a regular file"@
            } else if len > ATTACHMENT_BYTES_CAP {
                r is Err && r->Err_0@ == attachment_text(raw@) + " exceeds 33554432 bytes"@
            } else if vstd::utf8::encode_utf8(name).len() > NAME_CAP || name == "."@ || name == ".."@ {
                r is Err && r->Err_0@ == attachment_text(raw@)
                    + ": the file name is not a safe UTF-8 basename"@
            } else {
                match read {
                    Ok(b) => r is Ok && r->Ok_0.name@ == name && r->Ok_0.bytes == b,
                    Err(e) => r is Err && r->Err_0@ == attachment_text(raw@) + ": cannot read: "@
                        + e@,
                }
            }
        }),
{
    assert(inner.deep_view().last() == inner@.last()@);
    if !is_file {
        return Err(attachment_text_of(raw).concat(" is not a regular file"));
    }
    if len > ATTACHMENT_BYTES_CAP {
        return Err(attachment_text_of(raw).concat(" exceeds 33554432 bytes"));
    }
    let name = inner[inner.len() - 1].clone();
    if text::byte_len(name.as_str()) > NAME_CAP || text::eq(name.as_str(), ".") || text::eq(
        name.as_str(),
        "..",
    ) {
        return Err(
            attachment_text_of(raw).concat(": the file name is not a safe UTF-8 basename"),
        );
    }
    match read {
        Ok(bytes) => Ok(Attachment { name, bytes }),
        Err(e) => Err(attachment_text_of(raw).concat(": cannot read: ").concat(e.as_str())),
    }
}

/// No two attachments share a name.
pub open spec fn distinct_names(v: Seq<Attachment>) -> bool {
    forall|i: int, j: int|
        0 <= i < j < v.len() ==> (#[trigger] v[i]).name@ != (#[trigger] v[j]).name@
}

/// Adds an attachment, unless its name is taken.
pub fn add_attachment(all: &mut Vec<Attachment>, a: Attachment) -> (r: Result<(), String>)
    requires
        distinct_names(old(all)@),
    ensures
        distinct_names(final(all)@),
        match r {
            Ok(()) => final(all)@ == old(all)@.push(a) && forall|i: int|
                0 <= i < old(all)@.len() ==> (#[trigger] old(all)@[i]).name@ != a.name@,
            Err(e) => {
                &&& final(all)@ == old(all)@
                &&& exists|i: int|
                    0 <= i < old(all)@.len() && (#[trigger] old(all)@[i]).name@ == a.name@
                &&& e@ == "attachments share the name '"@ + a.name@ + "' — refused"@
            },
        },
{
    let mut i: usize = 0;
    while i < all.len()
        invariant
            *all == *old(all),
            distinct_names(all@),
            i <= all@.len(),
            forall|j: int| 0 <= j < i ==> (#[trigger] all@[j]).name@ != a.name@,
        decreases all.len() - i,
    {
        if text::eq(all[i].name.as_str(), a.name.as_str()) {
            return Err(
                "attachments share the name '".to_owned().concat(a.name.as_str()).concat(
                    "' — refused",
                ),
            );
        }
        i = i + 1;
    }
    all.push(a);
    Ok(())
}

// ---------- the post ----------

/// A parsed, shape-checked `publish` input.
#[derive(Debug)]
pub struct Post {
    pub project: String,
    pub title: String,
    pub body: String,
    /// Each attachment as given and as checked.
    pub attachments: Vec<(String, SafePath)>,
}

pub struct PostView {
    pub project: Seq<char>,
    pub title: Seq<char>,
    pub body: Seq<char>,
    pub attachments: Seq<(Seq<char>, SafePathView)>,
}

pub open spec fn attachments_view(v: Seq<(String, SafePath)>) -> Seq<(Seq<char>, SafePathView)> {
    v.map_values(|a: (String, SafePath)| (a.0@, a.1@))
}

impl View for Post {
    type V = PostView;

    open spec fn view(&self) -> PostView {
        PostView {
            project: self.project@,
            title: self.title@,
            body: self.body@,
            attachments: attachments_view(self.attachments@),
        }
    }
}

pub open spec fn missing_text(field: Seq<char>) -> Seq<char> {
    "missing or non-string '"@ + field + "'"@
}

fn need_str<'a>(input: &'a Json, field: &str) -> (r: Result<&'a str, String>)
    ensures
        match r {
            Ok(s) => json::field_str(input@, field@) == Some(s@),
            Err(e) => json::field_str(input@, field@) is None && e@ == missing_text(field@),
        },
{
    match input.get_str(field) {
        Some(s) => Ok(s),
        None => Err("missing or non-string '".to_owned().concat(field).concat("'")),
    }
}

/// The attachments of a list of paths, up to the first that is refused.
pub open spec fn attachments_of(list: Seq<JsonView>) -> Result<
    Seq<(Seq<char>, SafePathView)>,
    Seq<char>,
>
    decreases list.len(),
{
    if list.len() == 0 {
        Ok(seq![])
    } else {
        match attachments_of(list.drop_last()) {
            Err(e) => Err(e),
            Ok(before) => match list.last() {
                JsonView::Str(s) => match safe_path(s) {
                    Ok(p) => Ok(before.push((s, p))),
                    Err(e) => Err(e),
                },
                _ => Err("an attachment path must be a string"@),
            },
        }
    }
}

/// What a `publish` input says, or why it is refused. `project_name` is
/// what the identifier rule says of its project.
pub open spec fn post_of(input: JsonView, project_name: Result<(), Seq<char>>) -> Result<
    PostView,
    Seq<char>,
> {
    let project = json::field_str(input, "project"@);
    let title = json::field_str(input, "title"@);
    let body = json::field_str(input, "body"@);
    let list = json::field(input, "attachments"@);
    if project is None {
        Err(missing_text("project"@))
    } else if project_name is Err {
        Err("'project' is not a safe outbox name: "@ + project_name->Err_0)
    } else if title is None {
        Err(missing_text("title"@))
    } else if title->0.len() == 0 || title->0.len() > TITLE_CAP {
        Err("'title' must be 1-200 chars"@)
    } else if body is None {
        Err(missing_text("body"@))
    } else if vstd::utf8::encode_utf8(body->0).len() > BODY_CAP {
        Err("'body' must be at most 262144 bytes"@)
    } else {
        let attachments = match list {
            None => Ok(seq![]),
            Some(JsonView::Arr(a)) => if a.len() > ATTACHMENT_CAP {
                Err("at most 50 attachments"@)
            } else {
                attachments_of(a)
            },
            Some(_) => Err("'attachments' must be an array of paths"@),
        };
        match attachments {
            Err(e) => Err(e),
            Ok(attachments) => Ok(
                PostView { project: project->0, title: title->0, body: body->0, attachments },
            ),
        }
    }
}

pub open spec fn result_view(r: Result<(), String>) -> Result<(), Seq<char>> {
    match r {
        Ok(()) => Ok(()),
        Err(e) => Err(e@),
    }
}

proof fn attachments_stop(list: Seq<JsonView>, n: int)
    requires
        0 <= n <= list.len(),
        attachments_of(list.take(n)) is Err,
    ensures
        attachments_of(list) == attachments_of(list.take(n)),
    decreases list.len() - n,
{
    if n == list.len() {
        assert(list.take(n) =~= list);
    } else {
        assert(list.take(n + 1).drop_last() =~= list.take(n));
        attachments_stop(list, n + 1);
    }
}

/// Parses a `publish` input, given what the identifier rule says of its
/// project.
pub fn parse_post(input: &Json, project_name: Result<(), String>) -> (r: Result<Post, String>)
    ensures
        match r {
            Ok(p) => post_of(input@, result_view(project_name)) == Ok::<PostView, Seq<char>>(p@),
            Err(e) => post_of(input@, result_view(project_name)) == Err::<PostView, Seq<char>>(e@),
        },
{
    let project = match need_str(input, "project") {
        Ok(s) => s,
        Err(e) => {
            return Err(e);
        },
    };
    if let Err(e) = &project_name {
        return Err("'project' is not a safe outbox name: ".to_owned().concat(e.as_str()));
    }
    let title = match need_str(input, "title") {
        Ok(s) => s,
        Err(e) => {
            return Err(e);
        },
    };
    if title.is_empty() || title.unicode_len() > TITLE_CAP {
        return Err("'title' must be 1-200 chars".to_owned());
    }
    let body = match need_str(input, "body") {
        Ok(s) => s,
        Err(e) => {
            return Err(e);
        },
    };
    if text::byte_len(body) > BODY_CAP {
        return Err("'body' must be at most 262144 bytes".to_owned());
    }
    let mut attachments: Vec<(String, SafePath)> = Vec::new();
    assert(attachments_view(attachments@) =~= seq![]);
    if let Some(list) = input.get("attachments") {
        match list.as_arr() {
            None => {
                return Err("'attachments' must be an array of paths".to_owned());
            },
            Some(v) => {
                let ghost a = list@->Arr_0;
                if v.len() > ATTACHMENT_CAP {
                    return Err("at most 50 attachments".to_owned());
                }
                let mut i: usize = 0;
                assert(a.take(0) =~= seq![]);
                while i < v.len()
                    invariant
                        i <= v@.len(),
                        v@.len() <= ATTACHMENT_CAP,
                        a.len() == v@.len(),
                        forall|j: int| 0 <= j < v@.len() ==> #[trigger] a[j] == v@[j]@,
                        attachments_of(a.take(i as int)) == Ok::<
                            Seq<(Seq<char>, SafePathView)>,
                            Seq<char>,
                        >(attachments_view(attachments@)),
                        json::field(input@, "attachments"@) == Some(JsonView::Arr(a)),
                        json::field_str(input@, "project"@) == Some(project@),
                        json::field_str(input@, "title"@) == Some(title@),
                        json::field_str(input@, "body"@) == Some(body@),
                        project_name is Ok,
                        0 < title@.len() <= TITLE_CAP,
                        vstd::utf8::encode_utf8(body@).len() <= BODY_CAP,
                    decreases v.len() - i,
                {
                    assert(a.take(i + 1).drop_last() =~= a.take(i as int));
                    assert(a.take(i + 1).last() == v@[i as int]@);
                    let s = match v[i].as_str() {
                        None => {
                            proof {
                                attachments_stop(a, i + 1);
                            }
                            return Err("an attachment path must be a string".to_owned());
                        },
                        Some(s) => s,
                    };
                    let path = match check_path(s) {
                        Ok(p) => p,
                        Err(e) => {
                            proof {
                                attachments_stop(a, i + 1);
                            }
                            return Err(e);
                        },
                    };
                    let ghost before = attachments_view(attachments@);
                    let ghost item = (s@, path@);
                    attachments.push((s.to_owned(), path));
                    assert(attachments_view(attachments@) =~= before.push(item));
                    i = i + 1;
                }
                assert(a.take(i as int) =~= a);
            },
        }
    }
    Ok(Post { project: project.to_owned(), title: title.to_owned(), body: body.to_owned(), attachments })
}

/// The rendered post: the title as a heading, then the body verbatim.
pub open spec fn rendered(title: Seq<char>, body: Seq<char>) -> Seq<char> {
    "# "@ + title + "\n\n"@ + body
}

/// Renders a post.
pub fn render_post(post: &Post) -> (r: String)
    ensures
        r@ == rendered(post.title@, post.body@),
{
    "# ".to_owned().concat(post.title.as_str()).concat("\n\n").concat(post.body.as_str())
}

pub open spec fn listing(v: Seq<(Seq<char>, SafePathView)>) -> Seq<char>
    decreases v.len(),
{
    if v.len() == 0 {
        seq![]
    } else {
        listing(v.drop_last()) + "\n  "@ + v.last().0
    }
}

/// What the operator reviews before a `publish` lands: the post as it
/// will be written, and its attachments; or why it will fail.
pub open spec fn preview_text(
    account: Seq<char>,
    tool: Seq<char>,
    post: Result<PostView, Seq<char>>,
) -> Seq<char> {
    if tool != TOOL_PUBLISH@ {
        "local/"@ + tool + ": no such tool — the table declares only publish"@
    } else {
        match post {
            Err(e) => "publish (input will fail at execute): "@ + e,
            Ok(p) => {
                let head = "Publish to the local outbox (account "@ + account + ", project "@
                    + p.project + "):\n\n"@ + rendered(p.title, p.body);
                if p.attachments.len() == 0 {
                    head
                } else {
                    head + "\n\nattachments:"@ + listing(p.attachments)
                }
            },
        }
    }
}

/// The preview of a call.
pub fn preview(account: &str, tool: &str, input: &Json, project_name: Result<(), String>) -> (r:
    String)
    ensures
        r@ == preview_text(account@, tool@, post_of(input@, result_view(project_name))),
{
    if !text::eq(tool, TOOL_PUBLISH) {
        return "local/".to_owned().concat(tool).concat(
            ": no such tool — the table declares only publish",
        );
    }
    match parse_post(input, project_name) {
        Err(e) => "publish (input will fail at execute): ".to_owned().concat(e.as_str()),
        Ok(post) => {
            let head = "Publish to the local outbox (account ".to_owned().concat(account).concat(
                ", project ",
            ).concat(post.project.as_str()).concat("):\n\n").concat(render_post(&post).as_str());
            if post.attachments.len() == 0 {
                return head;
            }
            let ghost d = attachments_view(post.attachments@);
            let mut list = String::new();
            let mut i: usize = 0;
            assert(d.take(0) =~= seq![]);
            while i < post.attachments.len()
                invariant
                    d == attachments_view(post.attachments@),
                    i <= post.attachments@.len(),
                    list@ == listing(d.take(i as int)),
                decreases post.attachments.len() - i,
            {
                assert(d.take(i + 1).drop_last() =~= d.take(i as int));
                list = list.concat("\n  ").concat(post.attachments[i].0.as_str());
                i = i + 1;
            }
            assert(d.take(i as int) =~= d);
            head.concat("\n\nattachments:").concat(list.as_str())
        },
    }
}


// ---------- executing a publish ----------

/// A `publish` call that may go on: its post, and the digest of its input
/// as printed.
#[derive(Debug)]
pub struct Staged {
    pub post: Post,
    pub input_sha: String,
}

/// The digest of an input: of the bytes of its JSON text.
pub open spec fn input_digest(input_text: Seq<char>) -> Seq<char> {
    hash::sha256_hex(vstd::utf8::encode_utf8(input_text))
}

/// What a call comes to before anything is read or written: the tool must
/// be `publish` and the input a post. A text that is not JSON has no
/// project.
pub open spec fn staging(
    tool: Seq<char>,
    input: Result<JsonView, Seq<char>>,
    project_name: Result<(), Seq<char>>,
) -> Result<PostView, Seq<char>> {
    if tool != TOOL_PUBLISH@ {
        Err("local has no tool '"@ + tool + "' — the table declares only publish"@)
    } else {
        match input {
            Ok(j) => post_of(j, project_name),
            Err(e) => Err(missing_text("project"@)),
        }
    }
}

/// [`begin`] on an input that was parsed.
pub fn stage(tool: &str, input: &Json, project_name: Result<(), String>) -> (r: Result<Post, String>)
    ensures
        match r {
            Ok(p) => staging(tool@, Ok(input@), result_view(project_name)) == Ok::<
                PostView,
                Seq<char>,
            >(p@),
            Err(e) => staging(tool@, Ok(input@), result_view(project_name)) == Err::<
                PostView,
                Seq<char>,
            >(e@),
        },
{
    if !text::eq(tool, TOOL_PUBLISH) {
        return Err(
            "local has no tool '".to_owned().concat(tool).concat(
                "' — the table declares only publish",
            ),
        );
    }
    parse_post(input, project_name)
}

/// Begins a call: checks the tool, parses the input's JSON text and its
/// post, and takes the input's digest.
pub fn begin(tool: &str, input_text: &str, project_name: Result<(), String>) -> (r: Result<
    Staged,
    String,
>)
    ensures
        match r {
            Ok(s) => {
                &&& staging(tool@, json::parsed(input_text@), result_view(project_name)) == Ok::<
                    PostView,
                    Seq<char>,
                >(s.post@)
                &&& s.input_sha@ == input_digest(input_text@)
            },
            Err(e) => staging(tool@, json::parsed(input_text@), result_view(project_name)) == Err::<
                PostView,
                Seq<char>,
            >(e@),
        },
{
    match json::parse(input_text) {
        Ok(input) => match stage(tool, &input, project_name) {
            Ok(post) => Ok(Staged { post, input_sha: hash::sha256_text(input_text) }),
            Err(e) => Err(e),
        },
        Err(_) => if text::eq(tool, TOOL_PUBLISH) {
            Err("missing or non-string '".to_owned().concat("project").concat("'"))
        } else {
            Err(
                "local has no tool '".to_owned().concat(tool).concat(
                    "' — the table declares only publish",
                ),
            )
        },
    }
}

/// The directory of an item, `<outbox>/<project>/<effect_id>`, given what
/// the identifier rule says of the effect id.
pub fn item_dir(outbox: &str, project: &str, effect_id: &str, id_name: Result<(), String>) -> (r:
    Result<String, String>)
    ensures
        match (id_name, r) {
            (Ok(()), Ok(d)) => d@ == paths::join(paths::join(outbox@, project@), effect_id@),
            (Err(e), Err(m)) => m@ == "the effect id is not a safe outbox name: "@ + e@,
            _ => false,
        },
{
    match id_name {
        Err(e) => Err("the effect id is not a safe outbox name: ".to_owned().concat(e.as_str())),
        Ok(()) => Ok(paths::join_of(paths::join_of(outbox, project).as_str(), effect_id)),
    }
}

/// What an index that stands under a key says to a call with this input:
/// the recorded result where the recorded input is the same, else a
/// refusal.
pub open spec fn replayed(index: JsonView, input_sha: Seq<char>, key: Seq<char>) -> Result<
    JsonView,
    Seq<char>,
> {
    if json::field_str(index, "input_sha256"@) == Some(input_sha) {
        match json::field(index, "result"@) {
            Some(result) if !(result is Null) => Ok(result),
            _ => Err("the recorded outbox index carries no result"@),
        }
    } else {
        Err("outbox item "@ + key + " exists under a different input — refusing"@)
    }
}

/// Replays a recorded outcome, or refuses the collision.
pub fn replay<'a>(index: &'a Json, input_sha: &str, key: &str) -> (r: Result<&'a Json, String>)
    ensures
        match r {
            Ok(j) => replayed(index@, input_sha@, key@) == Ok::<JsonView, Seq<char>>(j@),
            Err(e) => replayed(index@, input_sha@, key@) == Err::<JsonView, Seq<char>>(e@),
        },
{
    if let Some(sha) = index.get_str("input_sha256") {
        if text::eq(sha, input_sha) {
            return match index.get("result") {
                Some(result) => if result.is_null() {
                    Err("the recorded outbox index carries no result".to_owned())
                } else {
                    Ok(result)
                },
                None => Err("the recorded outbox index carries no result".to_owned()),
            };
        }
    }
    Err("outbox item ".to_owned().concat(key).concat(" exists under a different input — refusing"))
}

/// Reads the index that stands under a key.
pub fn read_index(index_text: &str) -> (r: Result<Json, String>)
    ensures
        match r {
            Ok(j) => json::parsed(index_text@) == Ok::<JsonView, Seq<char>>(j@),
            Err(e) => json::parsed(index_text@) is Err && e@
                == "the recorded outbox index does not parse: "@ + json::parsed(
                index_text@,
            )->Err_0,
        },
        forall|j: JsonView|
            index_text@ == #[trigger] json::printed(j) && json::plain(j, json::DEPTH_LIMIT as nat)
                ==> r is Ok && r->Ok_0@ == j,
{
    match json::parse(index_text) {
        Ok(j) => Ok(j),
        Err(e) => Err("the recorded outbox index does not parse: ".to_owned().concat(e.as_str())),
    }
}

/// Refuses an item that stands without an index.
pub fn refuse_unindexed(key: &str, exists_now: bool) -> (r: Result<(), String>)
    ensures
        match r {
            Ok(()) => !exists_now,
            Err(e) => exists_now && e@ == "outbox item "@ + key@
                + " exists without an index — refusing to overwrite"@,
        },
{
    if exists_now {
        Err(
            "outbox item ".to_owned().concat(key).concat(
                " exists without an index — refusing to overwrite",
            ),
        )
    } else {
        Ok(())
    }
}

/// The recorded outcome of a publish.
#[derive(Debug)]
pub struct PublishResult {
    pub platform_ref: String,
    pub board_url: String,
    pub url: String,
    pub path: String,
    pub attachments: usize,
}

/// One attachment as the index records it.
#[derive(Debug)]
pub struct AttachmentRecord {
    pub name: String,
    pub sha256: String,
    pub bytes: usize,
}

/// The publish record that an item carries.
#[derive(Debug)]
pub struct OutboxIndex {
    pub effect_id: String,
    pub project: String,
    pub title: String,
    pub published_at: String,
    pub post_sha256: String,
    pub content_sha256: String,
    pub input_sha256: String,
    pub attachments: Vec<AttachmentRecord>,
    pub result: PublishResult,
}

/// Everything that lands in an item's directory besides the attachments.
#[derive(Debug)]
pub struct Publication {
    pub post_md: String,
    pub index: OutboxIndex,
}

/// The line of an attachment in the content digest.
pub open spec fn attachment_line(a: Attachment) -> Seq<char> {
    a.name@ + " "@ + hash::sha256_hex(a.bytes@)
}

pub open spec fn attachment_lines(v: Seq<Attachment>) -> Seq<Seq<char>> {
    v.map_values(|a: Attachment| attachment_line(a))
}

/// The digest of a post with its attachments.
pub open spec fn content_digest(post_sha: Seq<char>, v: Seq<Attachment>) -> Seq<char> {
    hash::sha256_hex(vstd::utf8::encode_utf8(post_sha + "\n"@ + text::join(attachment_lines(v), "\n"@)))
}

/// The index records each attachment under its name with its digest and
/// size.
pub open spec fn recorded(v: Seq<Attachment>, rec: Seq<AttachmentRecord>) -> bool {
    &&& rec.len() == v.len()
    &&& forall|i: int|
        0 <= i < v.len() ==> {
            &&& (#[trigger] rec[i]).name@ == v[i].name@
            &&& rec[i].sha256@ == hash::sha256_hex(v[i].bytes@)
            &&& rec[i].bytes == v[i].bytes@.len()
        }
}

/// What lands for a staged call: the rendered post, and an index that
/// carries every digest and the outcome.
pub fn publication(
    staged: &Staged,
    key: &str,
    item_dir: &str,
    board_origin: &str,
    published_at: &str,
    attachments: &Vec<Attachment>,
) -> (r: Publication)
    ensures
        r.post_md@ == rendered(staged.post.title@, staged.post.body@),
        r.index.effect_id@ == key@,
        r.index.project@ == staged.post.project@,
        r.index.title@ == staged.post.title@,
        r.index.published_at@ == published_at@,
        r.index.post_sha256@ == hash::sha256_hex(vstd::utf8::encode_utf8(r.post_md@)),
        r.index.content_sha256@ == content_digest(r.index.post_sha256@, attachments@),
        r.index.input_sha256@ == staged.input_sha@,
        recorded(attachments@, r.index.attachments@),
        r.index.result.platform_ref@ == "outbox/"@ + staged.post.project@ + "/"@ + key@,
        r.index.result.board_url@ == board_origin@ + "/outbox?item="@ + key@,
        r.index.result.url@ == r.index.result.board_url@,
        r.index.result.path@ == item_dir@,
        r.index.result.attachments == attachments@.len(),
{
    let post_md = render_post(&staged.post);
    let post_sha = hash::sha256_text(post_md.as_str());
    let mut lines: Vec<String> = Vec::new();
    let mut records: Vec<AttachmentRecord> = Vec::new();
    let mut i: usize = 0;
    assert(lines.deep_view() =~= attachment_lines(attachments@.take(0)));
    while i < attachments.len()
        invariant
            i <= attachments@.len(),
            lines.deep_view() == attachment_lines(attachments@.take(i as int)),
            recorded(attachments@.take(i as int), records@),
        decreases attachments.len() - i,
    {
        let a = &attachments[i];
        let sha = hash::sha256_hex_of(a.bytes.as_slice());
        let line = a.name.clone().concat(" ").concat(sha.as_str());
        let ghost before = lines.deep_view();
        let ghost grown = attachments@.take(i + 1);
        assert(grown =~= attachments@.take(i as int).push(*a));
        lines.push(line);
        assert(lines.deep_view() =~= before.push(attachment_line(*a)));
        assert(attachment_lines(grown) =~= before.push(attachment_line(*a)));
        records.push(
            AttachmentRecord { name: a.name.clone(), sha256: sha, bytes: a.bytes.len() },
        );
        i = i + 1;
    }
    assert(attachments@.take(i as int) =~= attachments@);
    let all = post_sha.clone().concat("\n").concat(text::join_of(&lines, "\n").as_str());
    let content_sha = hash::sha256_text(all.as_str());
    let board_url = board_origin.to_owned().concat("/outbox?item=").concat(key);
    let result = PublishResult {
        platform_ref: "outbox/".to_owned().concat(staged.post.project.as_str()).concat("/").concat(
            key,
        ),
        board_url: board_url.clone(),
        url: board_url,
        path: item_dir.to_owned(),
        attachments: attachments.len(),
    };
    Publication {
        post_md,
        index: OutboxIndex {
            effect_id: key.to_owned(),
            project: staged.post.project.clone(),
            title: staged.post.title.clone(),
            published_at: published_at.to_owned(),
            post_sha256: post_sha,
            content_sha256: content_sha,
            input_sha256: staged.input_sha.clone(),
            attachments: records,
            result,
        },
    }
}


// ---------- reading an item back ----------

/// What lies in an item's directory: the post, whether there is an
/// `attachments` directory, the names in it, and the bytes of its files.
pub struct ItemFiles {
    pub post: Option<Vec<u8>>,
    pub has_dir: bool,
    pub listing: Option<Vec<String>>,
    pub files: Vec<(String, Vec<u8>)>,
}

/// The bytes of a file by name.
pub open spec fn file_in(files: Seq<(String, Vec<u8>)>, name: Seq<char>) -> Option<Seq<u8>>
    decreases files.len(),
{
    if files.len() == 0 {
        None
    } else if files[0].0@ == name {
        Some(files[0].1@)
    } else {
        file_in(files.drop_first(), name)
    }
}

/// The attachments that an index lists.
pub open spec fn listed(index: JsonView) -> Seq<JsonView> {
    match json::field(index, "attachments"@) {
        Some(JsonView::Arr(a)) => a,
        _ => seq![],
    }
}

/// The names that an index gives its attachments.
pub open spec fn listed_names(list: Seq<JsonView>) -> Seq<Seq<char>>
    decreases list.len(),
{
    if list.len() == 0 {
        seq![]
    } else {
        match json::field_str(list.last(), "name"@) {
            Some(n) => listed_names(list.drop_last()).push(n),
            None => listed_names(list.drop_last()),
        }
    }
}

/// A listed attachment is there with its recorded digest.
pub open spec fn present(a: JsonView, files: Seq<(String, Vec<u8>)>) -> bool {
    match (json::field_str(a, "name"@), json::field_str(a, "sha256"@)) {
        (Some(name), Some(sha)) => file_in(files, name) is Some && hash::sha256_hex(
            file_in(files, name)->0,
        ) == sha,
        _ => false,
    }
}

/// The item's content matches its index: the post intact, every recorded
/// attachment present with its digest, nothing added or missing.
pub open spec fn intact(f: ItemFiles, index: JsonView, post_sha: Seq<char>) -> bool {
    let list = listed(index);
    &&& f.post is Some && hash::sha256_hex(f.post->0@) == post_sha
    &&& if listed_names(list).len() == 0 {
        !f.has_dir
    } else {
        &&& forall|i: int| 0 <= i < list.len() ==> present(#[trigger] list[i], f.files@)
        &&& f.listing is Some
        &&& f.listing->0.deep_view().to_multiset() == listed_names(list).to_multiset()
    }
}

fn file_of<'a>(files: &'a Vec<(String, Vec<u8>)>, name: &str) -> (r: Option<&'a Vec<u8>>)
    ensures
        match r {
            Some(b) => file_in(files@, name@) == Some(b@),
            None => file_in(files@, name@) is None,
        },
{
    let mut i: usize = 0;
    assert(files@.skip(0) =~= files@);
    while i < files.len()
        invariant
            i <= files@.len(),
            file_in(files@, name@) == file_in(files@.skip(i as int), name@),
        decreases files.len() - i,
    {
        assert(files@.skip(i as int).drop_first() =~= files@.skip(i + 1));
        if text::eq(files[i].0.as_str(), name) {
            return Some(&files[i].1);
        }
        i = i + 1;
    }
    None
}

fn is_present(a: &Json, files: &Vec<(String, Vec<u8>)>) -> (r: bool)
    ensures
        r == present(a@, files@),
{
    match (a.get_str("name"), a.get_str("sha256")) {
        (Some(name), Some(sha)) => match file_of(files, name) {
            Some(b) => text::eq(hash::sha256_hex_of(b.as_slice()).as_str(), sha),
            None => false,
        },
        _ => false,
    }
}

/// Whether two lists hold the same names, each as often.
pub fn same_names(a: &Vec<String>, b: &Vec<String>) -> (r: bool)
    ensures
        r == (a.deep_view().to_multiset() == b.deep_view().to_multiset()),
{
    broadcast use vstd::seq_lib::group_to_multiset_ensures;

    let ghost x = a.deep_view();
    let ghost y = b.deep_view();
    let mut rest = text::copy_names(b);
    let mut i: usize = 0;
    assert(x.take(0) =~= Seq::empty());
    assert(y.to_multiset() =~= rest.deep_view().to_multiset().add(x.take(0).to_multiset()));
    while i < a.len()
        invariant
            x == a.deep_view(),
            y == b.deep_view(),
            i <= a@.len(),
            y.to_multiset() == rest.deep_view().to_multiset().add(x.take(i as int).to_multiset()),
        decreases a.len() - i,
    {
        let ghost d = rest.deep_view();
        let ghost grown = x.take(i + 1);
        assert(grown =~= x.take(i as int).push(x[i as int]));
        proof {
            x.take(i as int).to_multiset_ensures();
            d.to_multiset_ensures();
        }
        assert(grown.to_multiset() =~= x.take(i as int).to_multiset().insert(x[i as int]));
        let mut k: usize = 0;
        while k < rest.len() && !text::eq(rest[k].as_str(), a[i].as_str())
            invariant
                x == a.deep_view(),
                i < a@.len(),
                d == rest.deep_view(),
                k <= rest@.len(),
                forall|j: int| 0 <= j < k ==> d[j] != x[i as int],
            decreases rest.len() - k,
        {
            k = k + 1;
        }
        if k == rest.len() {
            proof {
                assert(!d.contains(x[i as int]));
                assert(d.to_multiset().count(x[i as int]) == 0);
                assert(grown =~= x.subrange(0, i + 1));
                assert(x =~= grown + x.skip(i + 1));
                vstd::seq_lib::lemma_multiset_commutative(grown, x.skip(i + 1));
                assert(x.to_multiset().count(x[i as int]) >= grown.to_multiset().count(
                    x[i as int],
                ));
                assert(y.to_multiset().count(x[i as int]) == x.take(i as int).to_multiset().count(
                    x[i as int],
                ));
            }
            return false;
        }
        let ghost e = d[k as int];
        let gone = rest.remove(k);
        assert(rest.deep_view() =~= d.remove(k as int));
        assert(d.to_multiset() =~= rest.deep_view().to_multiset().insert(e)) by {
            assert(d =~= d.remove(k as int).insert(k as int, e));
            vstd::seq_lib::to_multiset_insert(d.remove(k as int), k as int, e);
        }
        assert(y.to_multiset() =~= rest.deep_view().to_multiset().add(grown.to_multiset()));
        i = i + 1;
    }
    assert(x.take(i as int) =~= x);
    if rest.len() == 0 {
        assert(rest.deep_view() =~= Seq::empty());
        assert(y.to_multiset() =~= x.to_multiset());
        true
    } else {
        proof {
            let e = rest.deep_view()[0];
            assert(rest.deep_view().contains(e));
            assert(rest.deep_view().to_multiset().count(e) > 0);
            assert(y.to_multiset().count(e) > x.to_multiset().count(e));
        }
        false
    }
}


fn listed_of<'a>(index: &'a Json) -> (r: Option<&'a Vec<Json>>)
    ensures
        match r {
            Some(v) => listed(index@).len() == v@.len() && forall|i: int|
                0 <= i < v@.len() ==> #[trigger] listed(index@)[i] == v@[i]@,
            None => listed(index@).len() == 0,
        },
{
    match index.get("attachments") {
        Some(a) => a.as_arr(),
        None => None,
    }
}

/// Whether an item's content matches its index.
pub fn item_intact(f: &ItemFiles, index: &Json, post_sha: &str) -> (r: bool)
    ensures
        r == intact(*f, index@, post_sha@),
{
    match &f.post {
        None => {
            return false;
        },
        Some(b) => {
            if !text::eq(hash::sha256_hex_of(b.as_slice()).as_str(), post_sha) {
                return false;
            }
        },
    }
    let ghost list = listed(index@);
    let mut names: Vec<String> = Vec::new();
    assert(names.deep_view() =~= listed_names(list.take(0)));
    let mut all = true;
    match listed_of(index) {
        None => {
            assert(list =~= list.take(0));
        },
        Some(v) => {
            let mut i: usize = 0;
            while i < v.len()
                invariant
                    list == listed(index@),
                    list.len() == v@.len(),
                    forall|j: int| 0 <= j < v@.len() ==> #[trigger] list[j] == v@[j]@,
                    i <= v@.len(),
                    names.deep_view() == listed_names(list.take(i as int)),
                    all == forall|j: int| 0 <= j < i ==> present(#[trigger] list[j], f.files@),
                decreases v.len() - i,
            {
                let ghost before = names.deep_view();
                assert(list.take(i + 1).drop_last() =~= list.take(i as int));
                assert(list.take(i + 1).last() == list[i as int]);
                if let Some(n) = v[i].get_str("name") {
                    names.push(n.to_owned());
                    assert(names.deep_view() =~= before.push(n@));
                }
                if !is_present(&v[i], &f.files) {
                    assert(!present(list[i as int], f.files@));
                    all = false;
                }
                i = i + 1;
            }
            assert(list.take(i as int) =~= list);
        },
    }
    assert(names.deep_view().len() == names@.len());
    if names.len() == 0 {
        return !f.has_dir;
    }
    if !all {
        return false;
    }
    match &f.listing {
        None => false,
        Some(on_disk) => same_names(on_disk, &names),
    }
}

/// An item of the outbox records this input and is intact.
pub open spec fn verified_by(item: (Json, ItemFiles), input_sha: Seq<char>, post_sha: Seq<char>) -> bool {
    records_input(item, input_sha) && intact(item.1, item.0@, post_sha)
}

pub open spec fn records_input(item: (Json, ItemFiles), input_sha: Seq<char>) -> bool {
    json::field_str(item.0@, "input_sha256"@) == Some(input_sha)
}

/// What the outbox says of an input: `Some(true)` when an item for it
/// exists and verifies, `Some(false)` when one exists but diverges,
/// `None` when no item names it.
pub fn find_intact(items: &Vec<(Json, ItemFiles)>, input_sha: &str, post_sha: &str) -> (r: Option<
    bool,
>)
    ensures
        r is Some <==> exists|i: int|
            0 <= i < items@.len() && records_input(#[trigger] items@[i], input_sha@),
        r == Some(true) <==> exists|i: int|
            0 <= i < items@.len() && verified_by(#[trigger] items@[i], input_sha@, post_sha@),
{
    let mut found: Option<bool> = None;
    let mut i: usize = 0;
    while i < items.len()
        invariant
            i <= items@.len(),
            found is Some <==> exists|j: int|
                0 <= j < i && records_input(#[trigger] items@[j], input_sha@),
            found == Some(true) <==> exists|j: int|
                0 <= j < i && verified_by(#[trigger] items@[j], input_sha@, post_sha@),
        decreases items.len() - i,
    {
        let (index, files) = &items[i];
        if let Some(sha) = index.get_str("input_sha256") {
            if text::eq(sha, input_sha) {
                let ok = item_intact(files, index, post_sha);
                assert(records_input(items@[i as int], input_sha@));
                if ok {
                    assert(verified_by(items@[i as int], input_sha@, post_sha@));
                    found = Some(true);
                } else if found.is_none() {
                    found = Some(false);
                }
            }
        }
        i = i + 1;
    }
    found
}

/// The read-back of a publish: whether the outbox holds an intact item
/// for this exact input.
pub fn read_back(
    tool: &str,
    input_text: &str,
    project_name: Result<(), String>,
    items: &Vec<(Json, ItemFiles)>,
) -> (r: bool)
    ensures
        r == match staging(tool@, json::parsed(input_text@), result_view(project_name)) {
            Err(_) => false,
            Ok(post) => exists|i: int|
                0 <= i < items@.len() && verified_by(
                    #[trigger] items@[i],
                    input_digest(input_text@),
                    hash::sha256_hex(vstd::utf8::encode_utf8(rendered(post.title, post.body))),
                ),
        },
{
    match begin(tool, input_text, project_name) {
        Err(_) => false,
        Ok(staged) => {
            let post_sha = hash::sha256_text(render_post(&staged.post).as_str());
            match find_intact(items, staged.input_sha.as_str(), post_sha.as_str()) {
                Some(found) => found,
                None => false,
            }
        },
    }
}

// ---------- the board's read model ----------

/// The excerpt of a post that an item shows.
pub open spec fn excerpt(post: Option<Seq<char>>) -> Seq<char> {
    match post {
        None => seq![],
        Some(p) => if p.len() > ITEM_PREVIEW_CAP {
            p.take(ITEM_PREVIEW_CAP as int).push('…')
        } else {
            p
        },
    }
}

fn excerpt_of(post: Option<&str>) -> (r: String)
    ensures
        r@ == excerpt(post.deep_view()),
{
    match post {
        None => String::new(),
        Some(p) => {
            let v = text::chars_of(p);
            if v.len() > ITEM_PREVIEW_CAP {
                let mut r = text::string_of(v.as_slice(), 0, ITEM_PREVIEW_CAP);
                assert(r@ =~= p@.take(ITEM_PREVIEW_CAP as int));
                r.push('…');
                r
            } else {
                p.to_owned()
            }
        },
    }
}

/// The board link that an index's recorded result carries.
pub open spec fn result_url(m: Seq<json::MemberView>) -> Option<Seq<char>> {
    match json::entry(m, "result"@) {
        Some(result) => json::field_str(result, "board_url"@),
        None => None,
    }
}

/// What an item reports to the board: the index's own fields, an excerpt
/// of the post, the item's path and its board link; the recorded result
/// and input digest stay behind.
pub open spec fn item_view(path: Seq<char>, post: Option<Seq<char>>, index: JsonView) -> JsonView {
    match index {
        JsonView::Obj(m) => {
            let a = json::with(
                json::with(m, "preview"@, JsonView::Str(excerpt(post))),
                "path"@,
                JsonView::Str(path),
            );
            let b = match result_url(a) {
                Some(url) => json::with(a, "board_url"@, JsonView::Str(url)),
                None => a,
            };
            JsonView::Obj(json::without(json::without(b, "result"@), "input_sha256"@))
        },
        other => other,
    }
}

fn result_url_of(m: &Vec<Member>) -> (r: Option<String>)
    ensures
        r.deep_view() == result_url(json::members(m@)),
{
    let ghost d = json::members(m@);
    let mut i: usize = 0;
    assert(d.skip(0) =~= d);
    while i < m.len()
        invariant
            d == json::members(m@),
            i <= m@.len(),
            json::entry(d, "result"@) == json::entry(d.skip(i as int), "result"@),
        decreases m.len() - i,
    {
        assert(d.skip(i as int).drop_first() =~= d.skip(i + 1));
        assert(d.skip(i as int)[0] == json::member(m@[i as int]));
        if text::eq(m[i].key.as_str(), "result") {
            return match m[i].value.get_str("board_url") {
                Some(url) => Some(url.to_owned()),
                None => None,
            };
        }
        i = i + 1;
    }
    None
}

/// The JSON that one outbox item reports to the board.
pub fn item_json(path: &str, post: Option<&str>, index: Json) -> (r: Json)
    ensures
        r@ == item_view(path@, post.deep_view(), index@),
{
    let m = match index {
        Json::Obj(m) => m,
        other => {
            return other;
        },
    };
    proof {
        json::members_view(index, m);
    }
    let m = json::set_key(m, "preview", Json::Str(excerpt_of(post)));
    let m = json::set_key(m, "path", Json::Str(path.to_owned()));
    let m = match result_url_of(&m) {
        Some(url) => json::set_key(m, "board_url", Json::Str(url)),
        None => m,
    };
    let m = json::remove_key(m, "result");
    let m = json::remove_key(m, "input_sha256");
    let r = Json::Obj(m);
    proof {
        json::members_view(r, m);
    }
    r
}

/// An item with its rendered post, or null where the post is unreadable.
pub fn with_post(item: Json, post: Option<String>) -> (r: Json)
    ensures
        r@ == match item@ {
            JsonView::Obj(m) => JsonView::Obj(
                json::with(
                    m,
                    "post"@,
                    match post {
                        Some(p) => JsonView::Str(p@),
                        None => JsonView::Null,
                    },
                ),
            ),
            other => other,
        },
{
    let m = match item {
        Json::Obj(m) => m,
        other => {
            return other;
        },
    };
    proof {
        json::members_view(item, m);
    }
    let value = match post {
        Some(p) => Json::Str(p),
        None => Json::Null,
    };
    let m = json::set_key(m, "post", value);
    let r = Json::Obj(m);
    proof {
        json::members_view(r, m);
    }
    r
}

/// Whether an index is the one of this effect.
pub fn names_item(index: &Json, effect_id: &str) -> (r: bool)
    ensures
        r == (json::field_str(index@, "effect_id"@) == Some(effect_id@)),
{
    match index.get_str("effect_id") {
        Some(e) => text::eq(e, effect_id),
        None => false,
    }
}

/// When an item was published, as its index says.
pub open spec fn published(j: JsonView) -> Option<Seq<char>> {
    json::field_str(j, "published_at"@)
}

/// `a` may stand before `b`: it was not published earlier. An item
/// without a time counts as the earliest.
pub open spec fn newer_first(a: Json, b: Json) -> bool {
    match (published(a@), published(b@)) {
        (Some(x), Some(y)) => text::le(y, x),
        (None, Some(_)) => false,
        _ => true,
    }
}

fn is_newer_first(a: &Json, b: &Json) -> (r: bool)
    ensures
        r == newer_first(*a, *b),
{
    match (a.get_str("published_at"), b.get_str("published_at")) {
        (Some(x), Some(y)) => text::eq(y, x) || text::less(y, x),
        (None, Some(_)) => false,
        _ => true,
    }
}

/// The items newest first, at most [`LIST_CAP`] of them.
pub fn list_items(items: Vec<Json>) -> (r: Vec<Json>)
    ensures
        ({
            let all = order::sorted(items@, |a: Json, b: Json| newer_first(a, b));
            r@ == if all.len() > LIST_CAP {
                all.take(LIST_CAP as int)
            } else {
                all
            }
        }),
{
    let ghost le = |a: Json, b: Json| newer_first(a, b);
    let ghost all = items@;
    let mut rest: Vec<Json> = Vec::new();
    let mut items = items;
    // turned round, so that each next item can be taken from the end
    while items.len() > 0
        invariant
            items@ + rest@.reverse() == all,
        decreases items.len(),
    {
        let ghost i0 = items@;
        let ghost r0 = rest@;
        if let Some(x) = items.pop() {
            rest.push(x);
            assert(rest@.reverse() =~= seq![x] + r0.reverse());
            assert(i0 =~= items@.push(x));
            assert(items@ + rest@.reverse() =~= all);
        }
    }
    assert(rest@.reverse() =~= all);
    let mut out: Vec<Json> = Vec::new();
    let ghost mut n: int = 0;
    assert(all.take(0) =~= Seq::empty());
    while rest.len() > 0
        invariant
            le == (|a: Json, b: Json| newer_first(a, b)),
            0 <= n <= all.len(),
            rest@.reverse() == all.skip(n),
            out@ == order::sorted(all.take(n), le),
        decreases rest.len(),
    {
        let ghost r0 = rest@;
        if let Some(x) = rest.pop() {
            assert(r0.reverse()[0] == x);
            assert(all.skip(n).len() == r0.len());
            assert(all.skip(n)[0] == all[n]);
            assert(rest@.reverse() =~= r0.reverse().drop_first());
            assert(all.skip(n).drop_first() =~= all.skip(n + 1));
            assert(all.take(n + 1).drop_last() =~= all.take(n));
            let mut k: usize = out.len();
            while k > 0 && !is_newer_first(&out[k - 1], &x)
                invariant
                    le == (|a: Json, b: Json| newer_first(a, b)),
                    k <= out@.len(),
                    forall|i: int| k <= i < out@.len() ==> !le(#[trigger] out@[i], x),
                decreases k,
            {
                k = k - 1;
            }
            proof {
                order::insert_at(out@, x, le, k as int);
                n = n + 1;
            }
            out.insert(k, x);
        }
    }
    proof {
        assert(rest@.reverse().len() == 0);
        assert(n == all.len());
        assert(all.take(n) =~= all);
    }
    if out.len() > LIST_CAP {
        out.truncate(LIST_CAP);
        assert(out@ =~= order::sorted(all, le).take(LIST_CAP as int));
    }
    out
}

// ---------- laws ----------

/// Every attachment that is accepted stays below the worktree: its pieces
/// hold no `..`, and an absolute path begins with the worktree's own.
pub proof fn attachments_stay_inside(root: Seq<char>, raw: Seq<char>)
    requires
        safe_path(raw) is Ok,
        inside(root, safe_path(raw)->Ok_0, raw) is Ok,
    ensures
        !inside(root, safe_path(raw)->Ok_0, raw)->Ok_0.contains(".."@),
        inside(root, safe_path(raw)->Ok_0, raw)->Ok_0.len() > 0,
        paths::absolute(raw) ==> paths::parts(raw) == paths::parts(root) + inside(
            root,
            safe_path(raw)->Ok_0,
            raw,
        )->Ok_0,
{
    let p = safe_path(raw)->Ok_0;
    let below = paths::parts(root);
    let inner = inside(root, p, raw)->Ok_0;
    assert forall|i: int| 0 <= i < inner.len() implies inner[i] != ".."@ by {
        if p.absolute {
            assert(inner[i] == p.parts[i + below.len()]);
            assert(p.parts.contains(p.parts[i + below.len()]));
        } else {
            assert(p.parts.contains(p.parts[i]));
        }
    }
    if paths::absolute(raw) {
        assert(below =~= p.parts.subrange(0, below.len() as int));
        assert(p.parts =~= below + inner);
    }
}

/// A call replays the outcome that its own index records, and under
/// another input it is refused.
pub proof fn replay_needs_the_same_input(
    index: JsonView,
    result: JsonView,
    recorded_sha: Seq<char>,
    input_sha: Seq<char>,
    key: Seq<char>,
)
    requires
        json::field_str(index, "input_sha256"@) == Some(recorded_sha),
        json::field(index, "result"@) == Some(result),
        !(result is Null),
    ensures
        replayed(index, input_sha, key) is Ok <==> input_sha == recorded_sha,
        input_sha == recorded_sha ==> replayed(index, input_sha, key) == Ok::<JsonView, Seq<char>>(
            result,
        ),
{
}

/// The preview shows exactly the markdown that `post.md` will hold.
pub proof fn preview_shows_the_post(account: Seq<char>, p: PostView)
    ensures
        text::holds(
            preview_text(account, TOOL_PUBLISH@, Ok::<PostView, Seq<char>>(p)),
            rendered(p.title, p.body),
        ),
{
    let head = "Publish to the local outbox (account "@ + account + ", project "@ + p.project
        + "):\n\n"@;
    let post = rendered(p.title, p.body);
    let whole = preview_text(account, TOOL_PUBLISH@, Ok::<PostView, Seq<char>>(p));
    assert(whole.subrange(head.len() as int, (head.len() + post.len()) as int) =~= post);
    assert(text::at(whole, post, head.len() as int));
}

/// The list is in order and loses nothing below the cap.
pub proof fn listing_is_newest_first(items: Seq<Json>)
    ensures
        ({
            let le = |a: Json, b: Json| newer_first(a, b);
            &&& order::in_order(order::sorted(items, le), le)
            &&& order::sorted(items, le).to_multiset() == items.to_multiset()
        }),
{
    let le = |a: Json, b: Json| newer_first(a, b);
    assert(order::total(le)) by {
        assert forall|a: Json, b: Json| #[trigger] le(a, b) || le(b, a) by {
            if published(a@) is Some && published(b@) is Some {
                text::lt_total(published(a@)->0, published(b@)->0);
            }
        }
        assert forall|a: Json, b: Json, c: Json| #[trigger] le(a, b) && #[trigger] le(b, c) implies le(
            a,
            c,
        ) by {
            if published(a@) is Some && published(b@) is Some && published(c@) is Some {
                let (x, y, z) = (published(a@)->0, published(b@)->0, published(c@)->0);
                if y != x && z != y {
                    text::lt_transitive(z, y, x);
                }
            }
        }
    }
    order::sorted_is_a_sort(items, le);
}

} // verus!
