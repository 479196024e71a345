//! Requests and rules as the board shows them.
use crate::json;
use crate::json::{object_of, put_member, show_strings, Json, JsonView, Member, MemberView};
use crate::master_perm::record;
use crate::master_perm::record::{suggest_tail, Effect, Request, RequestView, Rule, RuleView, Scope};
use crate::text;
use vstd::prelude::*;

verus! {

pub open spec fn entry(key: Seq<char>, value: JsonView) -> MemberView {
    MemberView { key, value }
}

pub open spec fn number(n: i64) -> JsonView {
    JsonView::Num(text::dec_int(n as int))
}

/// A request, with its command on one line and the pattern that a prefix
/// rule for it would take.
pub open spec fn request_card(q: RequestView) -> JsonView {
    JsonView::Obj(
        seq![
            entry("argv"@, json::strings(q.argv)),
            entry("command"@, JsonView::Str(text::join(q.argv, " "@))),
            entry("created"@, number(q.created)),
            entry("cwd"@, JsonView::Str(q.cwd)),
            entry("decision"@, JsonView::Str(q.decision)),
            entry("decision_label"@, JsonView::Str(q.decision_label)),
            entry("expires_at"@, number(q.expires_at)),
            entry("id"@, JsonView::Str(q.id)),
            entry(
                "prefix"@,
                match record::suggestion(q.argv) {
                    Some(p) => json::strings(seq![p]),
                    None => JsonView::Null,
                },
            ),
            entry("reason"@, JsonView::Str(q.reason)),
            entry("requested_by"@, JsonView::Str(q.requested_by)),
            entry("risk"@, JsonView::Str(q.risk.name())),
            entry("status"@, JsonView::Str(q.status)),
        ],
    )
}

pub open spec fn rule_card(r: RuleView) -> JsonView {
    JsonView::Obj(
        seq![
            entry("argv"@, json::strings(r.argv)),
            entry("at"@, number(r.at)),
            entry("by"@, JsonView::Str(r.by)),
            entry("cwd"@, JsonView::Str(r.cwd)),
            entry(
                "effect"@,
                JsonView::Str(
                    match r.effect {
                        Effect::Allow => "allow"@,
                        Effect::Deny => "deny"@,
                    },
                ),
            ),
            entry("id"@, JsonView::Str(r.id)),
            entry(
                "scope"@,
                JsonView::Str(
                    match r.scope {
                        Scope::Exact => "exact"@,
                        Scope::Prefix => "prefix"@,
                    },
                ),
            ),
            entry("tail"@, json::strings(r.tail)),
        ],
    )
}

fn show(s: &String) -> (r: Json)
    ensures
        r@ == JsonView::Str(s@),
{
    Json::Str(s.clone())
}

fn show_number(n: i64) -> (r: Json)
    ensures
        r@ == number(n),
{
    Json::Num(text::dec_int_of(n))
}

/// A request as the board shows it.
pub fn request_json(req: &Request) -> (r: Json)
    ensures
        r@ == request_card(req@),
{
    let prefix = match suggest_tail(&req.argv) {
        Some(v) => show_strings(&v),
        None => Json::Null,
    };
    let mut m: Vec<Member> = Vec::new();
    assert(json::members(m@) =~= seq![]);
    put_member(&mut m, "argv", show_strings(&req.argv));
    put_member(&mut m, "command", Json::Str(text::join_of(&req.argv, " ")));
    put_member(&mut m, "created", show_number(req.created));
    put_member(&mut m, "cwd", show(&req.cwd));
    put_member(&mut m, "decision", show(&req.decision));
    put_member(&mut m, "decision_label", show(&req.decision_label));
    put_member(&mut m, "expires_at", show_number(req.expires_at));
    put_member(&mut m, "id", show(&req.id));
    put_member(&mut m, "prefix", prefix);
    put_member(&mut m, "reason", show(&req.reason));
    put_member(&mut m, "requested_by", show(&req.requested_by));
    put_member(&mut m, "risk", Json::Str(req.risk.as_str().to_owned()));
    put_member(&mut m, "status", show(&req.status));
    let r = object_of(m);
    assert(r@->Obj_0 =~= request_card(req@)->Obj_0);
    r
}

/// A rule as the board shows it.
pub fn rule_json(rule: &Rule) -> (r: Json)
    ensures
        r@ == rule_card(rule@),
{
    let effect = match rule.effect {
        Effect::Allow => "allow",
        Effect::Deny => "deny",
    };
    let scope = match rule.scope {
        Scope::Exact => "exact",
        Scope::Prefix => "prefix",
    };
    let mut m: Vec<Member> = Vec::new();
    assert(json::members(m@) =~= seq![]);
    put_member(&mut m, "argv", show_strings(&rule.argv));
    put_member(&mut m, "at", show_number(rule.at));
    put_member(&mut m, "by", show(&rule.by));
    put_member(&mut m, "cwd", show(&rule.cwd));
    put_member(&mut m, "effect", Json::Str(effect.to_owned()));
    put_member(&mut m, "id", show(&rule.id));
    put_member(&mut m, "scope", Json::Str(scope.to_owned()));
    put_member(&mut m, "tail", show_strings(&rule.tail));
    let r = object_of(m);
    assert(r@->Obj_0 =~= rule_card(rule@)->Obj_0);
    r
}

} // verus!
