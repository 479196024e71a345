//! The permission prompt of a brokered provider, over MCP: each tool call
//! that the provider cannot decide comes in as a call of the one tool, is
//! opened as a request of the daemon, and is answered by the operator. Every
//! failure denies, and so does the deadline: a prompt never hangs a turn.
use crate::hash;
use crate::json;
use crate::json::{array_of, object_of, put_member, Json, JsonView, Member, MemberView};
use crate::text;
use vstd::prelude::*;

verus! {

/// The one tool there is.
pub const TOOL: &'static str = "approve";

/// The seconds until a prompt that nobody answers is denied.
pub const DEFAULT_TIMEOUT_SECS: u64 = 900;

/// The longest single wait, in seconds.
pub const WAIT_SLICE_SECS: u64 = 60;

/// The pause before an unreachable daemon is tried again, in milliseconds.
pub const RETRY_MS: u64 = 500;

/// The characters of a summary.
pub const SUMMARY_CHARS: usize = 240;

/// The deadline of a prompt, in seconds: what was asked for, or what the
/// environment says, at least 1; else the default.
pub open spec fn timeout(asked: Option<u64>, env: Option<Seq<char>>) -> u64 {
    let given = match (asked, env) {
        (Some(n), _) => Some(n as nat),
        (None, Some(s)) => text::unsigned_upto(s, 10, u64::MAX as nat),
        (None, None) => None,
    };
    match given {
        Some(n) => if n == 0 {
            1
        } else {
            n as u64
        },
        None => DEFAULT_TIMEOUT_SECS,
    }
}

pub fn timeout_secs(asked: Option<u64>, env: Option<&str>) -> (r: u64)
    ensures
        r == timeout(asked, env.deep_view()),
{
    let given = match asked {
        Some(n) => Some(n),
        None => match env {
            Some(s) => text::parse_unsigned(s, 10, u64::MAX),
            None => None,
        },
    };
    match given {
        Some(n) => if n == 0 {
            1
        } else {
            n
        },
        None => DEFAULT_TIMEOUT_SECS,
    }
}

// ---------- what the provider is told ----------

/// A refusal as the provider reads it.
pub open spec fn denial(message: Seq<char>) -> JsonView {
    JsonView::Obj(
        seq![
            MemberView { key: "behavior"@, value: JsonView::Str("deny"@) },
            MemberView { key: "message"@, value: JsonView::Str(message) },
        ],
    )
}

/// A permission as the provider reads it, with the input as it came.
pub open spec fn permission(input: JsonView) -> JsonView {
    JsonView::Obj(
        seq![
            MemberView { key: "behavior"@, value: JsonView::Str("allow"@) },
            MemberView { key: "updatedInput"@, value: input },
        ],
    )
}

fn deny(message: &str) -> (r: Json)
    ensures
        r@ == denial(message@),
{
    let mut m: Vec<Member> = Vec::new();
    assert(json::members(m@) =~= seq![]);
    put_member(&mut m, "behavior", Json::Str("deny".to_owned()));
    put_member(&mut m, "message", Json::Str(message.to_owned()));
    let r = object_of(m);
    assert(r@->Obj_0 =~= denial(message@)->Obj_0);
    r
}

/// What an answer of the operator comes to.
pub open spec fn answered(answer: Option<JsonView>, input: JsonView) -> JsonView {
    let a = match answer {
        Some(a) => a,
        None => JsonView::Null,
    };
    if json::field_str(a, "decision"@) == Some("accept"@) {
        permission(input)
    } else {
        denial(
            match json::field_str(a, "reason"@) {
                Some(s) => s,
                None => "declined by operator"@,
            },
        )
    }
}

/// The operator's answer as the provider reads it: an accept allows, with
/// the input unchanged, and everything else denies.
pub fn verdict(answer: Option<&Json>, input: &Json) -> (r: Json)
    ensures
        r@ == answered(
            match answer {
                Some(a) => Some(a@),
                None => None,
            },
            input@,
        ),
{
    let a = match answer {
        Some(a) => a,
        None => {
            return deny("declined by operator");
        },
    };
    if let Some(d) = a.get_str("decision") {
        if text::eq(d, "accept") {
            let mut m: Vec<Member> = Vec::new();
            assert(json::members(m@) =~= seq![]);
            put_member(&mut m, "behavior", Json::Str("allow".to_owned()));
            put_member(&mut m, "updatedInput", json::copy(input));
            let r = object_of(m);
            assert(r@->Obj_0 =~= permission(input@)->Obj_0);
            return r;
        }
    }
    match a.get_str("reason") {
        Some(s) => deny(s),
        None => deny("declined by operator"),
    }
}

pub open spec fn at_most(s: Seq<char>, n: nat) -> Seq<char> {
    if s.len() <= n {
        s
    } else {
        s.take(n as int)
    }
}

/// One line about an input: its command where it has one, else all of it.
pub open spec fn summary(input: JsonView) -> Seq<char> {
    at_most(
        match json::field_str(input, "command"@) {
            Some(c) => c,
            None => json::printed(input),
        },
        SUMMARY_CHARS as nat,
    )
}

fn bounded(s: &str) -> (r: String)
    ensures
        r@ == at_most(s@, SUMMARY_CHARS as nat),
{
    let v = text::chars_of(s);
    if v.len() <= SUMMARY_CHARS {
        return s.to_owned();
    }
    let r = text::string_of(v.as_slice(), 0, SUMMARY_CHARS);
    assert(r@ =~= s@.take(SUMMARY_CHARS as int));
    r
}

/// The line that the list of requests shows.
pub fn summarize(input: &Json) -> (r: String)
    ensures
        r@ == summary(input@),
{
    match input.get_str("command") {
        Some(c) => bounded(c),
        None => bounded(json::print(input).as_str()),
    }
}

// ---------- one prompt ----------

/// How far a prompt is.
#[derive(Debug, Clone)]
pub enum State {
    /// The request is not open yet.
    Opening,
    /// The daemon holds the request under a handle.
    Waiting(String),
}

/// What is to be done next.
#[derive(Debug)]
pub enum Action {
    Open,
    /// Wait on a request, so many seconds.
    Wait { request: String, secs: u64 },
    Close { request: String },
    /// Tell the provider; the prompt is over.
    Answer(Json),
}

/// What the daemon said.
#[derive(Debug)]
pub enum Reply {
    Said(Json),
    /// It refused, with a message.
    Rejected(String),
    /// It could not be reached.
    Failed,
}

/// Where a reply leads.
#[derive(Debug)]
pub enum Step {
    /// Go on, after a pause where the daemon could not be reached.
    Again { state: State, pause: bool },
    Answer(Json),
}

/// Without an identity there is nobody to ask for; the denial where one is
/// missing.
pub fn check_identity(alias: Option<&str>, state_dir: Option<&str>) -> (r: Option<Json>)
    ensures
        match r {
            None => alias is Some && state_dir is Some,
            Some(j) => (alias is None || state_dir is None) && j@ == denial(
                "cadence identity env missing (CADENCE_ALIAS/CADENCE_STATE_DIR)"@,
            ),
        },
{
    match (alias, state_dir) {
        (Some(_), Some(_)) => None,
        _ => Some(deny("cadence identity env missing (CADENCE_ALIAS/CADENCE_STATE_DIR)")),
    }
}

/// The handle of a request: minted once per call, so that opening it again
/// after a lost reply opens the same one.
pub open spec fn handle(id: Seq<char>) -> Seq<char> {
    "perm-"@ + id
}

/// A fresh handle.
pub fn fresh_handle() -> (r: String)
    ensures
        exists|id: Seq<char>| r@ == #[trigger] handle(id) && id.len() == 32,
{
    let id = hash::fresh_uuid();
    let r = "perm-".to_owned().concat(id.as_str());
    assert(r@ == handle(id@));
    r
}

/// What opens a request.
pub open spec fn opening(alias: Seq<char>, tool: Seq<char>, request: Seq<char>, input: JsonView) -> JsonView {
    JsonView::Obj(
        seq![
            MemberView { key: "alias"@, value: JsonView::Str(alias) },
            MemberView { key: "input"@, value: input },
            MemberView { key: "input_summary"@, value: JsonView::Str(summary(input)) },
            MemberView { key: "kind"@, value: JsonView::Str("approval"@) },
            MemberView { key: "request"@, value: JsonView::Str(request) },
            MemberView { key: "tool"@, value: JsonView::Str(tool) },
        ],
    )
}

pub fn open_params(alias: &str, tool: &str, request: &str, input: &Json) -> (r: Json)
    ensures
        r@ == opening(alias@, tool@, request@, input@),
{
    let mut m: Vec<Member> = Vec::new();
    assert(json::members(m@) =~= seq![]);
    put_member(&mut m, "alias", Json::Str(alias.to_owned()));
    put_member(&mut m, "input", json::copy(input));
    put_member(&mut m, "input_summary", Json::Str(summarize(input)));
    put_member(&mut m, "kind", Json::Str("approval".to_owned()));
    put_member(&mut m, "request", Json::Str(request.to_owned()));
    put_member(&mut m, "tool", Json::Str(tool.to_owned()));
    let r = object_of(m);
    assert(r@->Obj_0 =~= opening(alias@, tool@, request@, input@)->Obj_0);
    r
}

/// The seconds of the next wait: a slice, or what is left, at least 1.
pub open spec fn slice(left: u128) -> int {
    let secs = left as int / 1000000000;
    if secs < 1 {
        1
    } else if secs < WAIT_SLICE_SECS {
        secs
    } else {
        WAIT_SLICE_SECS as int
    }
}

/// What a prompt does next, with so many nanoseconds left to its deadline.
/// One that ran out of time before it was open is denied; one that is open
/// is closed, and an answer that came at the last moment still counts.
pub fn plan(state: &State, left: u128) -> (r: Action)
    ensures
        match *state {
            State::Opening => if left == 0 {
                r is Answer && r->Answer_0@ == denial("timed out reaching the cadence daemon"@)
            } else {
                r is Open
            },
            State::Waiting(h) => if left == 0 {
                r is Close && r->Close_request@ == h@
            } else {
                r is Wait && r->Wait_request@ == h@ && r->secs == slice(left)
            },
        },
{
    match state {
        State::Opening => if left == 0 {
            Action::Answer(deny("timed out reaching the cadence daemon"))
        } else {
            Action::Open
        },
        State::Waiting(h) => if left == 0 {
            Action::Close { request: h.clone() }
        } else {
            let secs: u128 = left / 1000000000;
            Action::Wait {
                request: h.clone(),
                secs: if secs < 1 {
                    1
                } else if secs < WAIT_SLICE_SECS as u128 {
                    secs as u64
                } else {
                    WAIT_SLICE_SECS
                },
            }
        },
    }
}

/// Where the reply to an open leads.
pub fn opened(reply: Reply) -> (r: Step)
    ensures
        match reply {
            Reply::Said(v) => r is Again && !r->pause && r->state is Waiting && (
            r->state->Waiting_0)@ == (match json::field_str(v@, "request"@) {
                Some(s) => s,
                None => ""@,
            }),
            Reply::Rejected(why) => r is Answer && r->Answer_0@ == denial(why@),
            Reply::Failed => r is Again && r->pause && r->state is Opening,
        },
{
    match reply {
        Reply::Said(v) => {
            let h = match v.get_str("request") {
                Some(s) => s.to_owned(),
                None => "".to_owned(),
            };
            Step::Again { state: State::Waiting(h), pause: false }
        },
        Reply::Rejected(why) => Step::Answer(deny(why.as_str())),
        Reply::Failed => Step::Again { state: State::Opening, pause: true },
    }
}

/// Where the reply to a wait leads.
pub fn waited(request: String, reply: Reply, input: &Json) -> (r: Step)
    ensures
        match reply {
            Reply::Said(v) => if json::field_str(v@, "state"@) == Some("answered"@) {
                r is Answer && r->Answer_0@ == answered(json::field(v@, "answer"@), input@)
            } else if json::field_str(v@, "state"@) == Some("closed"@) {
                r is Answer && r->Answer_0@ == denial(
                    "permission request closed: "@ + (match json::field_str(v@, "reason"@) {
                        Some(s) => s,
                        None => "request closed"@,
                    }),
                )
            } else {
                r is Again && !r->pause && r->state == State::Waiting(request)
            },
            Reply::Rejected(why) => r is Answer && r->Answer_0@ == denial(why@),
            Reply::Failed => r is Again && r->pause && r->state == State::Waiting(request),
        },
{
    match reply {
        Reply::Said(v) => {
            proof {
                reveal_strlit("answered");
                reveal_strlit("closed");
                assert("answered"@.len() != "closed"@.len());
            }
            if let Some(s) = v.get_str("state") {
                if text::eq(s, "answered") {
                    return Step::Answer(verdict(v.get("answer"), input));
                }
                if text::eq(s, "closed") {
                    let why = match v.get_str("reason") {
                        Some(s) => s,
                        None => "request closed",
                    };
                    return Step::Answer(
                        deny("permission request closed: ".to_owned().concat(why).as_str()),
                    );
                }
            }
            Step::Again { state: State::Waiting(request), pause: false }
        },
        Reply::Rejected(why) => Step::Answer(deny(why.as_str())),
        Reply::Failed => Step::Again { state: State::Waiting(request), pause: true },
    }
}

/// What the provider is told once the request is closed at the deadline.
pub fn closed(reply: Reply, input: &Json) -> (r: Json)
    ensures
        r@ == (match reply {
            Reply::Said(v) => if json::field_str(v@, "state"@) == Some("answered"@) {
                answered(json::field(v@, "answer"@), input@)
            } else {
                denial("permission request timed out waiting on an operator decision"@)
            },
            _ => denial("permission request timed out waiting on an operator decision"@),
        }),
{
    if let Reply::Said(v) = reply {
        if let Some(s) = v.get_str("state") {
            if text::eq(s, "answered") {
                return verdict(v.get("answer"), input);
            }
        }
    }
    deny("permission request timed out waiting on an operator decision")
}

// ---------- the server ----------

/// What a line of the provider asks for.
#[derive(Debug)]
pub enum Served {
    /// Nothing is answered: no JSON, or a notification.
    Nothing,
    Reply(Json),
    /// The tool is called: a prompt is to be put up.
    Call { id: Json, tool: String, input: Json },
}

pub open spec fn envelope(id: JsonView, key: Seq<char>, value: JsonView) -> JsonView {
    JsonView::Obj(
        seq![
            MemberView { key: "id"@, value: id },
            MemberView { key: "jsonrpc"@, value: JsonView::Str("2.0"@) },
            MemberView { key, value },
        ],
    )
}

pub open spec fn fault(id: JsonView, code: Seq<char>, message: Seq<char>) -> JsonView {
    envelope(
        id,
        "error"@,
        JsonView::Obj(
            seq![
                MemberView { key: "code"@, value: JsonView::Num(code) },
                MemberView { key: "message"@, value: JsonView::Str(message) },
            ],
        ),
    )
}

pub open spec fn one(key: Seq<char>, value: JsonView) -> JsonView {
    JsonView::Obj(seq![MemberView { key, value }])
}

/// The server's answer to a greeting: the protocol version of the client,
/// where it names one.
pub open spec fn greeting(msg: JsonView, version: Seq<char>) -> JsonView {
    let params = match json::field(msg, "params"@) {
        Some(p) => p,
        None => JsonView::Null,
    };
    JsonView::Obj(
        seq![
            MemberView { key: "capabilities"@, value: one("tools"@, JsonView::Obj(seq![])) },
            MemberView {
                key: "protocolVersion"@,
                value: JsonView::Str(
                    match json::field_str(params, "protocolVersion"@) {
                        Some(v) => v,
                        None => "2025-11-25"@,
                    },
                ),
            },
            MemberView {
                key: "serverInfo"@,
                value: JsonView::Obj(
                    seq![
                        MemberView { key: "name"@, value: JsonView::Str("cadence"@) },
                        MemberView { key: "version"@, value: JsonView::Str(version) },
                    ],
                ),
            },
        ],
    )
}

pub open spec fn typed(t: Seq<char>) -> JsonView {
    one("type"@, JsonView::Str(t))
}

/// The one tool, as it is listed.
pub open spec fn tool_entry() -> JsonView {
    JsonView::Obj(
        seq![
            MemberView {
                key: "description"@,
                value: JsonView::Str("Ask the cadence operator to approve a tool call"@),
            },
            MemberView {
                key: "inputSchema"@,
                value: JsonView::Obj(
                    seq![
                        MemberView {
                            key: "properties"@,
                            value: JsonView::Obj(
                                seq![
                                    MemberView { key: "input"@, value: typed("object"@) },
                                    MemberView { key: "tool_name"@, value: typed("string"@) },
                                    MemberView { key: "tool_use_id"@, value: typed("string"@) },
                                ],
                            ),
                        },
                        MemberView {
                            key: "required"@,
                            value: json::strings(seq!["tool_name"@, "input"@]),
                        },
                        MemberView { key: "type"@, value: JsonView::Str("object"@) },
                    ],
                ),
            },
            MemberView { key: "name"@, value: JsonView::Str("approve"@) },
        ],
    )
}

fn one_of(key: &str, value: Json) -> (r: Json)
    ensures
        r@ == one(key@, value@),
{
    let mut m: Vec<Member> = Vec::new();
    assert(json::members(m@) =~= seq![]);
    let ghost v = value@;
    put_member(&mut m, key, value);
    let r = object_of(m);
    assert(r@->Obj_0 =~= one(key@, v)->Obj_0);
    r
}

fn typed_of(t: &str) -> (r: Json)
    ensures
        r@ == typed(t@),
{
    one_of("type", Json::Str(t.to_owned()))
}

fn envelope_of(id: Json, key: &str, value: Json) -> (r: Json)
    ensures
        r@ == envelope(id@, key@, value@),
{
    let ghost (i, v) = (id@, value@);
    let mut m: Vec<Member> = Vec::new();
    assert(json::members(m@) =~= seq![]);
    put_member(&mut m, "id", id);
    put_member(&mut m, "jsonrpc", Json::Str("2.0".to_owned()));
    put_member(&mut m, key, value);
    let r = object_of(m);
    assert(r@->Obj_0 =~= envelope(i, key@, v)->Obj_0);
    r
}

fn fault_of(id: Json, code: &str, message: &str) -> (r: Json)
    ensures
        r@ == fault(id@, code@, message@),
{
    let mut m: Vec<Member> = Vec::new();
    assert(json::members(m@) =~= seq![]);
    put_member(&mut m, "code", Json::Num(code.to_owned()));
    put_member(&mut m, "message", Json::Str(message.to_owned()));
    assert(json::members(m@) =~= seq![
        MemberView { key: "code"@, value: JsonView::Num(code@) },
        MemberView { key: "message"@, value: JsonView::Str(message@) },
    ]);
    envelope_of(id, "error", object_of(m))
}

fn greet(msg: &Json, version: &str) -> (r: Json)
    ensures
        r@ == greeting(msg@, version@),
{
    let none: Vec<Member> = Vec::new();
    assert(json::members(none@) =~= seq![]);
    let protocol = match msg.get("params") {
        Some(p) => match p.get_str("protocolVersion") {
            Some(v) => v,
            None => "2025-11-25",
        },
        None => "2025-11-25",
    };
    let mut info: Vec<Member> = Vec::new();
    assert(json::members(info@) =~= seq![]);
    put_member(&mut info, "name", Json::Str("cadence".to_owned()));
    put_member(&mut info, "version", Json::Str(version.to_owned()));
    assert(json::members(info@) =~= seq![
        MemberView { key: "name"@, value: JsonView::Str("cadence"@) },
        MemberView { key: "version"@, value: JsonView::Str(version@) },
    ]);
    let mut m: Vec<Member> = Vec::new();
    assert(json::members(m@) =~= seq![]);
    put_member(&mut m, "capabilities", one_of("tools", object_of(none)));
    put_member(&mut m, "protocolVersion", Json::Str(protocol.to_owned()));
    put_member(&mut m, "serverInfo", object_of(info));
    let r = object_of(m);
    assert(r@->Obj_0 =~= greeting(msg@, version@)->Obj_0);
    r
}

fn tool_schema() -> (r: Json)
    ensures
        r@ == tool_entry(),
{
    let mut props: Vec<Member> = Vec::new();
    assert(json::members(props@) =~= seq![]);
    put_member(&mut props, "input", typed_of("object"));
    put_member(&mut props, "tool_name", typed_of("string"));
    put_member(&mut props, "tool_use_id", typed_of("string"));
    assert(json::members(props@) =~= seq![
        MemberView { key: "input"@, value: typed("object"@) },
        MemberView { key: "tool_name"@, value: typed("string"@) },
        MemberView { key: "tool_use_id"@, value: typed("string"@) },
    ]);
    let required = vec!["tool_name".to_owned(), "input".to_owned()];
    assert(required.deep_view() =~= seq!["tool_name"@, "input"@]);
    let mut schema: Vec<Member> = Vec::new();
    assert(json::members(schema@) =~= seq![]);
    put_member(&mut schema, "properties", object_of(props));
    put_member(&mut schema, "required", json::show_strings(&required));
    put_member(&mut schema, "type", Json::Str("object".to_owned()));
    let ghost want = tool_entry()->Obj_0[1].value->Obj_0;
    assert(json::members(schema@) =~= want);
    let mut m: Vec<Member> = Vec::new();
    assert(json::members(m@) =~= seq![]);
    put_member(
        &mut m,
        "description",
        Json::Str("Ask the cadence operator to approve a tool call".to_owned()),
    );
    put_member(&mut m, "inputSchema", object_of(schema));
    put_member(&mut m, "name", Json::Str("approve".to_owned()));
    let r = object_of(m);
    assert(r@->Obj_0 =~= tool_entry()->Obj_0);
    r
}

/// What a message asks for.
pub open spec fn served(msg: JsonView, version: Seq<char>) -> ServedView {
    match json::field(msg, "id"@) {
        None => ServedView::Nothing,
        Some(id) => {
            let method = match json::field_str(msg, "method"@) {
                Some(m) => m,
                None => ""@,
            };
            if method == "initialize"@ {
                ServedView::Reply(envelope(id, "result"@, greeting(msg, version)))
            } else if method == "tools/list"@ {
                ServedView::Reply(
                    envelope(
                        id,
                        "result"@,
                        one("tools"@, JsonView::Arr(seq![tool_entry()])),
                    ),
                )
            } else if method == "tools/call"@ {
                called(id, msg)
            } else {
                ServedView::Reply(fault(id, "-32601"@, "method not found"@))
            }
        },
    }
}

pub enum ServedView {
    Nothing,
    Reply(JsonView),
    Call(JsonView, Seq<char>, JsonView),
}

/// What a call of a tool asks for: only one tool exists.
pub open spec fn called(id: JsonView, msg: JsonView) -> ServedView {
    let params = match json::field(msg, "params"@) {
        Some(p) => p,
        None => JsonView::Null,
    };
    if json::field_str(params, "name"@) != Some("approve"@) {
        ServedView::Reply(fault(id, "-32602"@, "unknown tool — only 'approve' exists"@))
    } else {
        let args = match json::field(params, "arguments"@) {
            Some(a) => a,
            None => JsonView::Null,
        };
        ServedView::Call(
            id,
            match json::field_str(args, "tool_name"@) {
                Some(t) => t,
                None => "tool"@,
            },
            match json::field(args, "input"@) {
                Some(i) => i,
                None => JsonView::Obj(seq![]),
            },
        )
    }
}

impl View for Served {
    type V = ServedView;

    open spec fn view(&self) -> ServedView {
        match *self {
            Served::Nothing => ServedView::Nothing,
            Served::Reply(j) => ServedView::Reply(j@),
            Served::Call { id, tool, input } => ServedView::Call(id@, tool@, input@),
        }
    }
}

fn serve_call(id: Json, msg: &Json) -> (r: Served)
    ensures
        r@ == called(id@, msg@),
{
    let null = Json::Null;
    let params = match msg.get("params") {
        Some(p) => p,
        None => &null,
    };
    let named = match params.get_str("name") {
        Some(n) => text::eq(n, TOOL),
        None => false,
    };
    if !named {
        return Served::Reply(fault_of(id, "-32602", "unknown tool — only 'approve' exists"));
    }
    let args = match params.get("arguments") {
        Some(a) => a,
        None => &null,
    };
    let tool = match args.get_str("tool_name") {
        Some(t) => t.to_owned(),
        None => "tool".to_owned(),
    };
    let input = match args.get("input") {
        Some(i) => json::copy(i),
        None => {
            let none: Vec<Member> = Vec::new();
            assert(json::members(none@) =~= seq![]);
            object_of(none)
        },
    };
    Served::Call { id, tool, input }
}

/// What a message asks for. A message without an id is a notification, and
/// is not answered.
pub fn serve_message(msg: &Json, version: &str) -> (r: Served)
    ensures
        r@ == served(msg@, version@),
{
    let id = match msg.get("id") {
        Some(i) => json::copy(i),
        None => {
            return Served::Nothing;
        },
    };
    let method = match msg.get_str("method") {
        Some(m) => m,
        None => "",
    };
    if text::eq(method, "initialize") {
        Served::Reply(envelope_of(id, "result", greet(msg, version)))
    } else if text::eq(method, "tools/list") {
        let tools = vec![tool_schema()];
        assert(tools@.map_values(|x: Json| x@) =~= seq![tool_entry()]);
        Served::Reply(envelope_of(id, "result", one_of("tools", array_of(tools))))
    } else if text::eq(method, "tools/call") {
        serve_call(id, msg)
    } else {
        Served::Reply(fault_of(id, "-32601", "method not found"))
    }
}

/// What a line asks for; one that is no JSON asks for nothing.
pub fn serve_line(line: &str, version: &str) -> (r: Served)
    ensures
        r@ == (match json::parsed(line@) {
            Ok(j) => served(j, version@),
            Err(e) => ServedView::Nothing,
        }),
{
    match json::parse(line) {
        Ok(msg) => serve_message(&msg, version),
        Err(_) => Served::Nothing,
    }
}

/// The answer to a call: the verdict as a text of JSON.
pub open spec fn call_reply(id: JsonView, verdict: JsonView) -> JsonView {
    envelope(
        id,
        "result"@,
        one(
            "content"@,
            JsonView::Arr(
                seq![
                    JsonView::Obj(
                        seq![
                            MemberView {
                                key: "text"@,
                                value: JsonView::Str(json::printed(verdict)),
                            },
                            MemberView { key: "type"@, value: JsonView::Str("text"@) },
                        ],
                    ),
                ],
            ),
        ),
    )
}

pub fn answer_call(id: Json, verdict: &Json) -> (r: Json)
    ensures
        r@ == call_reply(id@, verdict@),
{
    let mut block: Vec<Member> = Vec::new();
    assert(json::members(block@) =~= seq![]);
    put_member(&mut block, "text", Json::Str(json::print(verdict)));
    put_member(&mut block, "type", Json::Str("text".to_owned()));
    assert(json::members(block@) =~= seq![
        MemberView { key: "text"@, value: JsonView::Str(json::printed(verdict@)) },
        MemberView { key: "type"@, value: JsonView::Str("text"@) },
    ]);
    let items = vec![object_of(block)];
    assert(items@.map_values(|x: Json| x@) =~= seq![items@[0]@]);
    envelope_of(id, "result", one_of("content", array_of(items)))
}

// ---------- laws ----------

/// The provider is allowed to go on.
pub open spec fn allows(v: JsonView) -> bool {
    json::field_str(v, "behavior"@) == Some("allow"@)
}

/// Only an accept of the operator allows; a denial never does, whatever it
/// says.
pub proof fn only_an_accept_allows(answer: Option<JsonView>, input: JsonView, message: Seq<char>)
    ensures
        !allows(denial(message)),
        allows(answered(answer, input)) <==> answer is Some && json::field_str(
            answer->0,
            "decision"@,
        ) == Some("accept"@),
{
    reveal_strlit("allow");
    reveal_strlit("deny");
    assert("allow"@.len() != "deny"@.len());
    reveal_with_fuel(json::entry, 2);
    assert(permission(input)->Obj_0[0].key == "behavior"@);
    assert(denial(message)->Obj_0[0].key == "behavior"@);
}

/// What is allowed is the input that was asked about, unchanged.
pub proof fn an_accept_keeps_the_input(answer: JsonView, input: JsonView)
    requires
        allows(answered(Some(answer), input)),
    ensures
        json::field(answered(Some(answer), input), "updatedInput"@) == Some(input),
{
    only_an_accept_allows(Some(answer), input, ""@);
    reveal_strlit("behavior");
    reveal_strlit("updatedInput");
    assert("behavior"@.len() != "updatedInput"@.len());
    reveal_with_fuel(json::entry, 3);
    let d = permission(input)->Obj_0;
    assert(d.drop_first()[0] == d[1]);
}

/// A single wait lasts between 1 and 60 seconds.
pub proof fn a_wait_is_bounded(left: u128)
    ensures
        1 <= slice(left) <= WAIT_SLICE_SECS,
{
}

} // verus!
