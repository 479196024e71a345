//! Permission prompts, dismissed rows and clocks, told by the messages,
//! records and reads behind them.
use crate::json;
use crate::json::{JsonView, MemberView};
use crate::mcp;
use crate::needs_dismiss;
use crate::overview::clock;
use crate::overview::clock::{Kept, Step};
use crate::text;
use crate::time;
use vstd::prelude::*;

verus! {

// ---------- permission prompts ----------

/// A prompt waits as long as asked, else as the environment says, at least a
/// second; a quarter of an hour where nothing can be read.
pub proof fn how_long_a_prompt_waits(asked: u64, n: u64, env: Option<Seq<char>>)
    ensures
        mcp::timeout(Some(asked), env) == if asked == 0 {
            1
        } else {
            asked
        },
        mcp::timeout(None, Some(text::dec(n as nat))) == if n == 0 {
            1
        } else {
            n
        },
        mcp::timeout(None, None) == 900,
        env is Some && text::unsigned_upto(env->0, 10, u64::MAX as nat) is None ==> mcp::timeout(
            None,
            env,
        ) == 900,
{
    text::dec_reads_back(n as nat);
}

/// A single wait is the whole seconds that are left, one at least and sixty
/// at most.
pub proof fn how_long_one_wait_is(left: u128)
    ensures
        left < 2_000_000_000 ==> mcp::slice(left) == 1,
        left >= 60_000_000_000 ==> mcp::slice(left) == 60,
        1_000_000_000 <= left < 60_000_000_000 ==> mcp::slice(left) == left as int / 1_000_000_000,
{
}

/// A refusal gives the operator's reason, or says that they declined.
pub proof fn a_refusal_gives_its_reason(answer: JsonView, input: JsonView)
    requires
        json::field_str(answer, "decision"@) != Some("accept"@),
    ensures
        ({
            let r = mcp::answered(Some(answer), input);
            &&& json::field(r, "behavior"@) == Some(JsonView::Str("deny"@))
            &&& json::field_str(answer, "reason"@) is Some ==> json::field(r, "message"@) == Some(
                JsonView::Str(json::field_str(answer, "reason"@)->0),
            )
            &&& json::field_str(answer, "reason"@) is None ==> json::field(r, "message"@) == Some(
                JsonView::Str("declined by operator"@),
            )
        }),
{
    reveal_strlit("behavior");
    reveal_strlit("message");
    assert("behavior"@.len() != "message"@.len());
    reveal_with_fuel(json::entry, 3);
    let d = mcp::answered(Some(answer), input)->Obj_0;
    assert(d.drop_first()[0] == d[1]);
}

/// What is asked of the operator: who asks, for which tool, with the whole
/// input, and its command in at most 240 characters.
pub proof fn what_the_operator_is_asked(
    alias: Seq<char>,
    tool: Seq<char>,
    request: Seq<char>,
    input: JsonView,
    command: Seq<char>,
)
    requires
        json::field(input, "command"@) == Some(JsonView::Str(command)),
    ensures
        ({
            let r = mcp::opening(alias, tool, request, input);
            let short = if command.len() <= 240 {
                command
            } else {
                command.take(240)
            };
            &&& json::field(r, "alias"@) == Some(JsonView::Str(alias))
            &&& json::field(r, "input"@) == Some(input)
            &&& json::field(r, "input_summary"@) == Some(JsonView::Str(short))
            &&& json::field(r, "kind"@) == Some(JsonView::Str("approval"@))
            &&& json::field(r, "request"@) == Some(JsonView::Str(request))
            &&& json::field(r, "tool"@) == Some(JsonView::Str(tool))
        }),
{
    reveal_strlit("alias");
    reveal_strlit("input");
    reveal_strlit("input_summary");
    reveal_strlit("kind");
    reveal_strlit("request");
    reveal_strlit("tool");
    assert("alias"@.len() == 5 && "input"@.len() == 5 && "input_summary"@.len() == 13
        && "kind"@.len() == 4 && "request"@.len() == 7 && "tool"@.len() == 4);
    assert("alias"@[0] != "input"@[0]);
    assert("kind"@[0] != "tool"@[0]);
    reveal_with_fuel(json::entry, 7);
    let d = mcp::opening(alias, tool, request, input)->Obj_0;
    let d1 = d.drop_first();
    let d2 = d1.drop_first();
    let d3 = d2.drop_first();
    let d4 = d3.drop_first();
    let d5 = d4.drop_first();
    assert(d1[0] == d[1] && d2[0] == d[2] && d3[0] == d[3] && d4[0] == d[4] && d5[0] == d[5]);
}

/// A reply is of the protocol, to the request it answers, and holds its
/// result or fault.
proof fn an_envelope_holds(id: JsonView, key: Seq<char>, value: JsonView)
    requires
        key == "result"@ || key == "error"@,
    ensures
        json::field(mcp::envelope(id, key, value), "id"@) == Some(id),
        json::field(mcp::envelope(id, key, value), "jsonrpc"@) == Some(JsonView::Str("2.0"@)),
        json::field(mcp::envelope(id, key, value), key) == Some(value),
{
    reveal_strlit("id");
    reveal_strlit("jsonrpc");
    reveal_strlit("result");
    reveal_strlit("error");
    assert("id"@.len() == 2 && "jsonrpc"@.len() == 7 && "result"@.len() == 6 && "error"@.len()
        == 5);
    reveal_with_fuel(json::entry, 4);
    let d = mcp::envelope(id, key, value)->Obj_0;
    let d1 = d.drop_first();
    let d2 = d1.drop_first();
    assert(d1[0] == d[1] && d2[0] == d[2]);
}

/// A message without an id is not answered.
pub proof fn a_notice_is_not_answered(msg: JsonView, version: Seq<char>)
    requires
        json::field(msg, "id"@) is None,
    ensures
        mcp::served(msg, version) is Nothing,
{
}

/// A call of the one tool goes to the operator, with the name and the input it
/// gives; a call of another is a fault.
pub proof fn a_call_goes_to_the_operator(
    msg: JsonView,
    version: Seq<char>,
    id: JsonView,
    params: JsonView,
    args: JsonView,
)
    requires
        json::field(msg, "id"@) == Some(id),
        json::field(msg, "method"@) == Some(JsonView::Str("tools/call"@)),
        json::field(msg, "params"@) == Some(params),
        json::field(params, "arguments"@) == Some(args),
    ensures
        json::field_str(params, "name"@) == Some("approve"@) ==> {
            let r = mcp::served(msg, version);
            &&& r is Call && r->Call_0 == id
            &&& json::field_str(args, "tool_name"@) matches Some(t) ==> r->Call_1 == t
            &&& json::field(args, "input"@) matches Some(i) ==> r->Call_2 == i
        },
        json::field_str(params, "name"@) != Some("approve"@) ==> {
            let r = mcp::served(msg, version);
            &&& r is Reply
            &&& json::field(r->Reply_0, "id"@) == Some(id)
            &&& json::field(r->Reply_0, "error"@) is Some
            &&& json::field(json::field(r->Reply_0, "error"@)->0, "code"@) == Some(
                JsonView::Num("-32602"@),
            )
        },
{
    reveal_strlit("initialize");
    reveal_strlit("tools/list");
    reveal_strlit("tools/call");
    assert("initialize"@[0] != "tools/call"@[0]);
    assert("tools/list"@[6] != "tools/call"@[6]);
    a_fault_has_its_code(id, "-32602"@, "unknown tool — only 'approve' exists"@);
}

proof fn a_fault_has_its_code(id: JsonView, code: Seq<char>, message: Seq<char>)
    ensures
        json::field(mcp::fault(id, code, message), "id"@) == Some(id),
        json::field(mcp::fault(id, code, message), "error"@) is Some,
        json::field(json::field(mcp::fault(id, code, message), "error"@)->0, "code"@) == Some(
            JsonView::Num(code),
        ),
{
    let e = JsonView::Obj(
        seq![
            MemberView { key: "code"@, value: JsonView::Num(code) },
            MemberView { key: "message"@, value: JsonView::Str(message) },
        ],
    );
    an_envelope_holds(id, "error"@, e);
    assert(e->Obj_0[0].key == "code"@);
}

/// A greeting is answered with the version that the client speaks; any method
/// but the three is a fault.
pub proof fn what_else_is_answered(msg: JsonView, version: Seq<char>, id: JsonView, method: Seq<char>)
    requires
        json::field(msg, "id"@) == Some(id),
        json::field(msg, "method"@) == Some(JsonView::Str(method)),
    ensures
        ({
            let r = mcp::served(msg, version);
            &&& method != "initialize"@ && method != "tools/list"@ && method != "tools/call"@ ==> {
                &&& r is Reply
                &&& json::field(r->Reply_0, "id"@) == Some(id)
                &&& json::field(r->Reply_0, "error"@) is Some
                &&& json::field(json::field(r->Reply_0, "error"@)->0, "code"@) == Some(
                    JsonView::Num("-32601"@),
                )
            }
            &&& method == "initialize"@ || method == "tools/list"@ ==> {
                &&& r is Reply
                &&& json::field(r->Reply_0, "id"@) == Some(id)
                &&& json::field(r->Reply_0, "result"@) is Some
            }
            &&& method == "initialize"@ && json::field(msg, "params"@) is Some
                && json::field_str(json::field(msg, "params"@)->0, "protocolVersion"@) is Some
                ==> json::field(json::field(r->Reply_0, "result"@)->0, "protocolVersion"@) == Some(
                JsonView::Str(
                    json::field_str(json::field(msg, "params"@)->0, "protocolVersion"@)->0,
                ),
            )
        }),
{
    reveal_strlit("initialize");
    reveal_strlit("tools/list");
    reveal_strlit("tools/call");
    assert("initialize"@[0] != "tools/call"@[0]);
    assert("initialize"@[0] != "tools/list"@[0]);
    assert("tools/list"@[6] != "tools/call"@[6]);
    a_fault_has_its_code(id, "-32601"@, "method not found"@);
    let g = mcp::greeting(msg, version);
    an_envelope_holds(id, "result"@, g);
    an_envelope_holds(
        id,
        "result"@,
        mcp::one("tools"@, JsonView::Arr(seq![mcp::tool_entry()])),
    );
    reveal_strlit("capabilities");
    reveal_strlit("protocolVersion");
    assert("capabilities"@.len() != "protocolVersion"@.len());
    reveal_with_fuel(json::entry, 3);
    let d = g->Obj_0;
    assert(d.drop_first()[0] == d[1]);
}

// ---------- dismissed rows ----------

/// A row is hidden by the record of its subject: a dismissal hides what began
/// no later than it, told by the row's start or else by its age; a snooze
/// hides until its time.
pub proof fn what_hides_a_row(
    row: JsonView,
    all: Seq<MemberView>,
    now: i64,
    kind: Seq<char>,
    id: Seq<char>,
    record: JsonView,
)
    requires
        json::field(row, "subject"@) is Some,
        json::field_str(json::field(row, "subject"@)->0, "kind"@) == Some(kind),
        json::field_str(json::field(row, "subject"@)->0, "id"@) == Some(id),
        json::entry(all, kind + ":"@ + id) == Some(record),
    ensures
        ({
            let snooze = json::field_str(record, "mode"@) == Some("snooze"@);
            let since = json::field(row, "since"@);
            let age = json::field(row, "age"@);
            let at = json::field(record, "at"@);
            let until = json::field(record, "until"@);
            &&& snooze && until is Some && json::integer(until->0) is Some ==> (
            needs_dismiss::hidden(row, all, now) <==> now < json::integer(until->0)->0)
            &&& !snooze && at is Some && json::integer(at->0) is Some && since is Some
                && json::integer(since->0) is Some ==> (needs_dismiss::hidden(row, all, now)
                <==> json::integer(since->0)->0 <= json::integer(at->0)->0)
            &&& !snooze && at is Some && json::integer(at->0) is Some && since is None && age
                is Some && json::integer(age->0) is Some ==> (needs_dismiss::hidden(row, all, now)
                <==> now - json::integer(age->0)->0 <= json::integer(at->0)->0)
        }),
{
}

/// A row without a subject, or whose subject has no record, shows.
pub proof fn what_nothing_hides(row: JsonView, all: Seq<MemberView>, now: i64)
    requires
        json::field(row, "subject"@) is None || needs_dismiss::subject(row) is None || json::entry(
            all,
            needs_dismiss::subject(row)->0,
        ) is None,
    ensures
        !needs_dismiss::hidden(row, all, now),
        needs_dismiss::shown(all, now)(row),
{
}

/// Recording drops the snoozes that are over, and no other record.
pub proof fn only_slept_snoozes_are_dropped(all: Seq<MemberView>, now: i64, m: MemberView)
    ensures
        all.filter(needs_dismiss::alive(now)).contains(m) <==> all.contains(m) && (
        json::field_str(m.value, "mode"@) != Some("snooze"@) || needs_dismiss::asleep(
            m.value,
            now,
        )),
        json::field(m.value, "until"@) is Some && json::integer(
            json::field(m.value, "until"@)->0,
        ) is Some ==> (needs_dismiss::asleep(m.value, now) <==> now < json::integer(
            json::field(m.value, "until"@)->0,
        )->0),
{
    let p = needs_dismiss::alive(now);
    let v = all.filter(p);
    if v.contains(m) {
        all.lemma_filter_contains_rev(p, m);
        let k = choose|k: int| 0 <= k < v.len() && #[trigger] v[k] == m;
        all.lemma_filter_pred(p, k);
    }
    if all.contains(m) && p(m) {
        let k = choose|k: int| 0 <= k < all.len() && #[trigger] all[k] == m;
        all.lemma_filter_contains(p, k);
    }
}

// ---------- clocks ----------

/// What was kept last for a subject is served, under the key it was read at.
pub proof fn the_last_kept_time_is_served(
    v: Seq<Kept>,
    kind: Seq<char>,
    id: Seq<char>,
    i: int,
)
    requires
        0 <= i < v.len(),
        v[i].kind@ == kind,
        v[i].id@ == id,
        forall|j: int|
            i < j < v.len() ==> !((#[trigger] v[j]).kind@ == kind && v[j].id@ == id),
    ensures
        clock::kept_at(v, kind, id, v[i].key@) == Some(v[i].at),
{
    last_place(v, kind, id, i);
}

proof fn last_place(v: Seq<Kept>, kind: Seq<char>, id: Seq<char>, i: int)
    requires
        0 <= i < v.len(),
        v[i].kind@ == kind,
        v[i].id@ == id,
        forall|j: int|
            i < j < v.len() ==> !((#[trigger] v[j]).kind@ == kind && v[j].id@ == id),
    ensures
        clock::place(v, kind, id) == Some(i),
    decreases v.len(),
{
    if i < v.len() - 1 {
        let w = v.drop_last();
        let l = v[v.len() - 1];
        assert(!(l.kind@ == kind && l.id@ == id));
        assert forall|j: int| i < j < w.len() implies !((#[trigger] w[j]).kind@ == kind && w[j].id@
            == id) by {
            assert(w[j] == v[j]);
        }
        last_place(w, kind, id, i);
    }
}

/// A clock that was read is not read again; a file's is taken from what was
/// kept, else read within what is left of the budget, never over fifteen
/// seconds, and skipped when nothing is left; a clock in notes is its last
/// note's.
pub proof fn how_a_clock_is_come_by(
    read: Option<i64>,
    kept: Option<i64>,
    left: u64,
    note: Option<Seq<char>>,
    source: Seq<char>,
)
    ensures
        clock::next(Some(read), source, kept, left, note) == Step::Known(read),
        source == "file"@ && kept is Some ==> clock::next(None, source, kept, left, note)
            == Step::Found(kept),
        source == "file"@ && kept is None && left == 0 ==> clock::next(
            None,
            source,
            kept,
            left,
            note,
        ) == Step::Skip,
        source == "file"@ && kept is None && left > 0 ==> clock::next(
            None,
            source,
            kept,
            left,
            note,
        ) == Step::Read(
            if left <= 15000 {
                left
            } else {
                15000
            },
        ),
        source == "notes"@ && note is Some && time::iso(note->0) is Some ==> clock::next(
            None,
            source,
            kept,
            left,
            note,
        ) == Step::Found(Some(time::iso(note->0)->0 as i64)),
        source != "file"@ && (source != "notes"@ || note is None) ==> clock::next(
            None,
            source,
            kept,
            left,
            note,
        ) == Step::Found(None),
{
    reveal_strlit("file");
    reveal_strlit("notes");
    assert("file"@.len() != "notes"@.len());
}

} // verus!
