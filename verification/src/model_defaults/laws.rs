//! Which model a registration gets, and which settings are accepted, told by
//! what was given.
use crate::dict;
use crate::json;
use crate::json::{JsonView, MemberView};
use crate::model_defaults;
use crate::model_defaults::resolve;
use crate::model_defaults::resolve::{ObservedView, RequestView};
use crate::model_defaults::{
    DefaultsView, Fault, ModelPolicy, ProviderView, SelectorView,
};
use crate::text;
use vstd::prelude::*;

verus! {

// ---------- single settings ----------

/// A model id is what is left between the white space: something, of at most
/// 200 bytes, without a control character.
pub proof fn what_is_a_model_id(raw: Seq<char>)
    ensures
        ({
            let id = text::trim(raw);
            &&& model_defaults::model_id(raw) is Ok <==> id.len() > 0 && vstd::utf8::encode_utf8(
                id,
            ).len() <= 200 && forall|i: int|
                0 <= i < id.len() ==> (#[trigger] id[i]) > '\u{1f}' && !('\u{7f}' <= id[i]
                    <= '\u{9f}')
            &&& model_defaults::model_id(raw) is Ok ==> model_defaults::model_id(raw)->Ok_0 == id
            &&& model_defaults::model_id(raw) matches Err(f) ==> f.code == "invalid_model"@
        }),
{
    let id = text::trim(raw);
    if forall|i: int|
        0 <= i < id.len() ==> (#[trigger] id[i]) > '\u{1f}' && !('\u{7f}' <= id[i] <= '\u{9f}') {
        assert(!model_defaults::has_control(id));
    } else {
        let i = choose|i: int|
            0 <= i < id.len() && !((#[trigger] id[i]) > '\u{1f}' && !('\u{7f}' <= id[i]
                <= '\u{9f}'));
        assert(text::control(id[i]));
    }
}

/// The team roles.
pub open spec fn is_role(r: Seq<char>) -> bool {
    ||| r == "pm"@
    ||| r == "research"@
    ||| r == "architect"@
    ||| r == "dev"@
    ||| r == "qa"@
    ||| r == "devops"@
    ||| r == "worker"@
}

proof fn roles_are_these(r: Seq<char>)
    ensures
        model_defaults::canonical(r) == is_role(r),
{
    let v = model_defaults::team_roles_view();
    assert(v.len() == 7);
    if is_role(r) {
        assert(v[0].0 == "pm"@ && v[1].0 == "research"@ && v[2].0 == "architect"@ && v[3].0
            == "dev"@ && v[4].0 == "qa"@ && v[5].0 == "devops"@ && v[6].0 == "worker"@);
    }
}

/// A team role is one of the seven in small or capital letters, between white
/// space; `ops` is another word for `devops`.
pub proof fn what_is_a_team_role(raw: Seq<char>)
    ensures
        ({
            let key = text::smalls(text::trim(raw));
            &&& model_defaults::team_role(raw) is Ok <==> is_role(key) || key == "ops"@
            &&& is_role(key) ==> model_defaults::team_role(raw) == Ok::<Seq<char>, Fault>(key)
            &&& key == "ops"@ ==> model_defaults::team_role(raw) == Ok::<Seq<char>, Fault>(
                "devops"@,
            )
            &&& model_defaults::team_role(raw) matches Err(f) ==> f.code == "invalid_team_role"@
        }),
{
    let key = text::smalls(text::trim(raw));
    roles_are_these(key);
    roles_are_these("devops"@);
    roles_are_these("ops"@);
    reveal_strlit("pm");
    reveal_strlit("research");
    reveal_strlit("architect");
    reveal_strlit("dev");
    reveal_strlit("qa");
    reveal_strlit("devops");
    reveal_strlit("worker");
    reveal_strlit("ops");
    assert("ops"@.len() == 3 && "dev"@.len() == 3);
    assert("ops"@[0] != "dev"@[0]);
    assert("pm"@.len() == 2 && "qa"@.len() == 2 && "research"@.len() == 8 && "architect"@.len() == 9
        && "devops"@.len() == 6 && "worker"@.len() == 6);
    assert(!is_role("ops"@));
    if text::trim(raw).len() == 0 {
        assert(key.len() == 0);
    }
}

/// A policy is `inherit`, also where none is given, or `provider_default`.
pub proof fn what_is_a_policy(raw: Option<Seq<char>>)
    ensures
        model_defaults::policy(raw) == Ok::<ModelPolicy, Fault>(ModelPolicy::Inherit) <==> raw
            is None || text::trim(raw->0) == "inherit"@,
        model_defaults::policy(raw) == Ok::<ModelPolicy, Fault>(ModelPolicy::ProviderDefault)
            <==> raw is Some && text::trim(raw->0) == "provider_default"@,
        model_defaults::policy(raw) matches Err(f) ==> f.code == "invalid_model_policy"@,
        model_defaults::policy(raw) is Err <==> raw is Some && text::trim(raw->0) != "inherit"@
            && text::trim(raw->0) != "provider_default"@,
{
    reveal_strlit("inherit");
    reveal_strlit("provider_default");
    assert("inherit"@.len() == 7 && "provider_default"@.len() == 16);
}

// ---------- the settings document ----------

/// A selector names a model id, or none.
pub open spec fn good_selector(s: SelectorView) -> bool {
    match s {
        SelectorView::ProviderDefault => true,
        SelectorView::Model(m) => model_defaults::model_id(m) is Ok,
    }
}

/// The selector as it is stored: with its id between the white space.
pub open spec fn stored_selector(s: SelectorView) -> SelectorView {
    match s {
        SelectorView::ProviderDefault => s,
        SelectorView::Model(m) => SelectorView::Model(text::trim(m)),
    }
}

proof fn selector_is_good(s: SelectorView)
    ensures
        model_defaults::selector(s).1 is None <==> good_selector(s),
        good_selector(s) ==> model_defaults::selector(s).0 == stored_selector(s),
{
    if let SelectorView::Model(m) = s {
        what_is_a_model_id(m);
    }
}

proof fn roles_are_good(v: Seq<(Seq<char>, SelectorView)>)
    ensures
        model_defaults::role_entries(v).1 is None <==> forall|i: int|
            0 <= i < v.len() ==> is_role((#[trigger] v[i]).0) && good_selector(v[i].1),
        model_defaults::role_entries(v).0.len() == v.len(),
        model_defaults::role_entries(v).1 is None ==> forall|i: int|
            0 <= i < v.len() ==> #[trigger] model_defaults::role_entries(v).0[i] == (
                v[i].0,
                stored_selector(v[i].1),
            ),
    decreases v.len(),
{
    if v.len() > 0 {
        let w = v.drop_last();
        let last = v.len() - 1;
        roles_are_good(w);
        roles_are_these(v.last().0);
        selector_is_good(v.last().1);
        assert(forall|i: int| 0 <= i < w.len() ==> #[trigger] v[i] == w[i]);
        assert(v[last] == v.last());
        let out = model_defaults::role_entries(v).0;
        let head = model_defaults::role_entries(w).0;
        assert(forall|i: int| 0 <= i < w.len() ==> #[trigger] out[i] == head[i]);
        if forall|i: int|
            0 <= i < v.len() ==> is_role((#[trigger] v[i]).0) && good_selector(v[i].1) {
            assert forall|i: int| 0 <= i < w.len() implies is_role((#[trigger] w[i]).0)
                && good_selector(w[i].1) by {
                assert(v[i] == w[i]);
            }
        }
    }
}

/// A provider's settings are accepted.
pub open spec fn good_provider(p: (Seq<char>, ProviderView), eligible: Seq<Seq<char>>) -> bool {
    &&& eligible.contains(p.0)
    &&& good_selector(p.1.default)
    &&& forall|i: int|
        0 <= i < p.1.roles.len() ==> is_role((#[trigger] p.1.roles[i]).0) && good_selector(
            p.1.roles[i].1,
        )
}

proof fn providers_are_good(v: Seq<(Seq<char>, ProviderView)>, eligible: Seq<Seq<char>>)
    ensures
        model_defaults::provider_entries(v, eligible).1 is None <==> forall|i: int|
            0 <= i < v.len() ==> good_provider(#[trigger] v[i], eligible),
        model_defaults::provider_entries(v, eligible).0.len() == v.len(),
        model_defaults::provider_entries(v, eligible).1 is None ==> forall|i: int|
            0 <= i < v.len() ==> (#[trigger] model_defaults::provider_entries(v, eligible).0[i]).0
                == v[i].0 && model_defaults::provider_entries(v, eligible).0[i].1.default
                == stored_selector(v[i].1.default),
    decreases v.len(),
{
    if v.len() > 0 {
        let w = v.drop_last();
        let last = v.len() - 1;
        providers_are_good(w, eligible);
        let p = v.last();
        selector_is_good(p.1.default);
        roles_are_good(p.1.roles);
        assert((model_defaults::provider_entry(p, eligible).1 is None) == good_provider(p, eligible));
        assert(forall|i: int| 0 <= i < w.len() ==> #[trigger] v[i] == w[i]);
        assert(v[last] == p);
        let out = model_defaults::provider_entries(v, eligible).0;
        let head = model_defaults::provider_entries(w, eligible).0;
        assert(forall|i: int| 0 <= i < w.len() ==> #[trigger] out[i] == head[i]);
        if forall|i: int| 0 <= i < v.len() ==> good_provider(#[trigger] v[i], eligible) {
            assert forall|i: int| 0 <= i < w.len() implies good_provider(
                #[trigger] w[i],
                eligible,
            ) by {
                assert(v[i] == w[i]);
            }
        }
    }
}

/// A document is accepted exactly where it is of the first schema, each of its
/// providers takes a model, and each of its roles and models is one. It keeps
/// its providers and their order.
pub proof fn what_document_is_accepted(c: DefaultsView, eligible: Seq<Seq<char>>)
    ensures
        model_defaults::checked(c, eligible).1 is None <==> c.schema == 1 && forall|i: int|
            0 <= i < c.providers.len() ==> good_provider(#[trigger] c.providers[i], eligible),
        model_defaults::checked(c, eligible).1 is None ==> {
            let n = model_defaults::checked(c, eligible).0;
            &&& n.schema == 1 && n.providers.len() == c.providers.len()
            &&& forall|i: int|
                0 <= i < c.providers.len() ==> (#[trigger] n.providers[i]).0 == c.providers[i].0
                    && n.providers[i].1.default == stored_selector(c.providers[i].1.default)
        },
{
    providers_are_good(c.providers, eligible);
}

// ---------- the choice ----------

/// A selection is recorded with its source, its model, the revision it was
/// read at and the role it was looked up by.
pub proof fn a_selection_records_its_source(
    source: Seq<char>,
    role: Seq<char>,
    revision: Option<i64>,
    model: Option<Seq<char>>,
)
    ensures
        ({
            let s = resolve::selection(source, role, revision, model);
            &&& json::field(s, "source"@) == Some(JsonView::Str(source))
            &&& json::field(s, "lookup_role"@) == Some(JsonView::Str(role))
            &&& model matches Some(m) ==> json::field(s, "model"@) == Some(JsonView::Str(m))
            &&& model is None ==> json::field(s, "model"@) == Some(JsonView::Null)
            &&& revision matches Some(n) ==> json::field(s, "revision"@) == Some(
                JsonView::Num(text::dec_int(n as int)),
            )
            &&& revision is None ==> json::field(s, "revision"@) == Some(JsonView::Null)
        }),
{
    reveal_strlit("lookup_role");
    reveal_strlit("model");
    reveal_strlit("revision");
    reveal_strlit("source");
    assert("lookup_role"@.len() == 11 && "model"@.len() == 5 && "revision"@.len() == 8
        && "source"@.len() == 6);
    reveal_with_fuel(json::entry, 5);
    let d = resolve::selection(source, role, revision, model)->Obj_0;
    let d1 = d.drop_first();
    let d2 = d1.drop_first();
    let d3 = d2.drop_first();
    assert(d1[0] == d[1] && d2[0] == d[2] && d3[0] == d[3]);
}

/// A registration is resolved exactly where its role, policy and params can
/// be read, a model is not both given and given up, one is not set where none
/// is taken, and the params fit in 4000 bytes.
pub proof fn what_registration_is_resolved(
    q: RequestView,
    parsed: Option<Result<JsonView, Seq<char>>>,
    supports: bool,
    m: Seq<MemberView>,
)
    requires
        parsed is None && m.len() == 0 || parsed == Some(
            Ok::<JsonView, Seq<char>>(JsonView::Obj(m)),
        ),
    ensures
        ({
            let given = json::entry(m, "model"@);
            let off = q.model_policy is Some && text::trim(q.model_policy->0)
                == "provider_default"@;
            let r = resolve::resolved(q, parsed, supports);
            &&& r is Ok ==> {
                &&& q.team_role is None || model_defaults::team_role(q.team_role->0) is Ok
                &&& model_defaults::policy(q.model_policy) is Ok
                &&& given matches Some(g) ==> g is Str && model_defaults::model_id(g->Str_0) is Ok
                    && !off
                &&& off ==> supports
                &&& r->Ok_0.params matches Some(t) ==> vstd::utf8::encode_utf8(t).len() <= 4000
                &&& r->Ok_0.model_selection is Some <==> supports
            }
            &&& r is Err && (q.team_role is None || model_defaults::team_role(q.team_role->0) is Ok)
                && model_defaults::policy(q.model_policy) is Ok && (given is None || (given->0
                is Str && model_defaults::model_id(given->0->Str_0) is Ok && !off)) && (off
                ==> supports) ==> r->Err_0 is Invalid && r->Err_0->Invalid_0.code
                == "params_too_large"@
        }),
{
    what_is_a_policy(q.model_policy);
    if parsed is None {
        assert(m =~= seq![]);
    }
}

/// An explicit model is taken as it is, whatever the defaults say.
pub proof fn an_explicit_model_is_taken(
    q: RequestView,
    m: Seq<MemberView>,
    id: Seq<char>,
    policy: ModelPolicy,
    role: Seq<char>,
)
    ensures
        ({
            let (a, s) = resolve::chosen(q, m, Some(id), policy, role);
            &&& json::entry(a, "model"@) == Some(JsonView::Str(id))
            &&& json::field(s, "source"@) == Some(JsonView::Str("explicit"@))
            &&& json::field(s, "model"@) == Some(JsonView::Str(id))
            &&& json::field(s, "revision"@) == Some(JsonView::Null)
        }),
{
    json::with_entry(m, "model"@, JsonView::Str(id), "model"@);
    a_selection_records_its_source("explicit"@, role, None, Some(id));
}

/// Giving up the model leaves none in the params, whatever the defaults say.
pub proof fn a_model_may_be_given_up(q: RequestView, m: Seq<MemberView>, role: Seq<char>)
    ensures
        ({
            let (a, s) = resolve::chosen(q, m, None, ModelPolicy::ProviderDefault, role);
            &&& json::entry(a, "model"@) is None
            &&& json::field(s, "source"@) == Some(JsonView::Str("explicit_provider_default"@))
            &&& json::field(s, "model"@) == Some(JsonView::Null)
        }),
{
    json::without_entry(m, "model"@, "model"@);
    a_selection_records_its_source("explicit_provider_default"@, role, None, None);
}

/// Otherwise the default of the role decides, failing that the provider's, at
/// the revision read; a provider without settings leaves the model to itself.
pub proof fn a_default_is_inherited(
    q: RequestView,
    m: Seq<MemberView>,
    role: Seq<char>,
    p: ProviderView,
    s: SelectorView,
)
    requires
        dict::get(q.config.providers, q.provider) == Some(p),
        dict::get(p.roles, role) == Some(s) || (dict::get(p.roles, role) is None && p.default == s),
    ensures
        ({
            let (a, t) = resolve::chosen(q, m, None, ModelPolicy::Inherit, role);
            &&& json::field(t, "revision"@) == Some(
                JsonView::Num(text::dec_int(q.revision as int)),
            )
            &&& json::field(t, "lookup_role"@) == Some(JsonView::Str(role))
            &&& s matches SelectorView::Model(id) ==> json::entry(a, "model"@) == Some(
                JsonView::Str(id),
            ) && json::field(t, "model"@) == Some(JsonView::Str(id))
            &&& s is ProviderDefault ==> json::entry(a, "model"@) is None && json::field(
                t,
                "model"@,
            ) == Some(JsonView::Null)
            &&& dict::get(p.roles, role) is Some ==> json::field(t, "source"@) == Some(
                JsonView::Str("role_default"@),
            )
            &&& dict::get(p.roles, role) is None && s is Model ==> json::field(t, "source"@)
                == Some(JsonView::Str("provider_baseline"@))
            &&& dict::get(p.roles, role) is None && s is ProviderDefault ==> json::field(
                t,
                "source"@,
            ) == Some(JsonView::Str("provider_default"@))
        }),
{
    let source = if dict::get(p.roles, role) is Some {
        "role_default"@
    } else if s is Model {
        "provider_baseline"@
    } else {
        "provider_default"@
    };
    json::without_entry(m, "model"@, "model"@);
    if let SelectorView::Model(id) = s {
        json::with_entry(m, "model"@, JsonView::Str(id), "model"@);
        a_selection_records_its_source(source, role, Some(q.revision), Some(id));
    } else {
        a_selection_records_its_source(source, role, Some(q.revision), None);
    }
}

/// A provider without settings leaves the model to itself.
pub proof fn an_unset_provider_decides_itself(q: RequestView, m: Seq<MemberView>, role: Seq<char>)
    requires
        dict::get(q.config.providers, q.provider) is None,
    ensures
        ({
            let (a, t) = resolve::chosen(q, m, None, ModelPolicy::Inherit, role);
            &&& json::entry(a, "model"@) is None
            &&& json::field(t, "source"@) == Some(JsonView::Str("provider_default"@))
            &&& json::field(t, "model"@) == Some(JsonView::Null)
        }),
{
    json::without_entry(m, "model"@, "model"@);
    a_selection_records_its_source("provider_default"@, role, Some(q.revision), None);
}

/// The role is looked up by the team role where one is given, else by the
/// role at run time.
pub proof fn the_team_role_is_looked_up(
    q: RequestView,
    parsed: Option<Result<JsonView, Seq<char>>>,
)
    requires
        resolve::resolved(q, parsed, true) is Ok,
    ensures
        ({
            let r = resolve::resolved(q, parsed, true)->Ok_0;
            let s = r.model_selection->0;
            &&& r.model_selection is Some
            &&& q.team_role is None ==> r.team_role is None && json::field(s, "lookup_role"@)
                == Some(JsonView::Str(q.runtime_role))
            &&& q.team_role matches Some(t) ==> r.team_role == Some(
                model_defaults::team_role(t)->Ok_0,
            ) && json::field(s, "lookup_role"@) == Some(
                JsonView::Str(model_defaults::team_role(t)->Ok_0),
            )
        }),
{
    let m = resolve::params_of(parsed)->0;
    let explicit = resolve::explicit_model(m)->Ok_0;
    let policy = model_defaults::policy(q.model_policy)->Ok_0;
    let role = resolve::lookup_role(q, resolve::team_of(q)->Ok_0);
    if let Some(id) = explicit {
        a_selection_records_its_source("explicit"@, role, None, Some(id));
    } else if policy is ProviderDefault {
        a_selection_records_its_source("explicit_provider_default"@, role, None, None);
    } else if let Some(p) = dict::get(q.config.providers, q.provider) {
        let s = match dict::get(p.roles, role) {
            Some(s) => s,
            None => p.default,
        };
        a_default_is_inherited(q, m, role, p, s);
    } else {
        a_selection_records_its_source("provider_default"@, role, Some(q.revision), None);
    }
}

// ---------- suggestions ----------

/// The id was seen on an agent of the provider, configured or reported.
pub open spec fn seen(o: ObservedView, provider: Seq<char>, id: Seq<char>) -> bool {
    o.provider == provider && ((o.configured is Some && model_defaults::model_id(o.configured->0)
        == Ok::<Seq<char>, Fault>(id)) || (o.reported is Some && model_defaults::model_id(
        o.reported->0,
    ) == Ok::<Seq<char>, Fault>(id)))
}

proof fn suggest_holds(v: Seq<Seq<char>>, c: Option<Seq<char>>, id: Seq<char>)
    requires
        text::increasing(v),
    ensures
        text::increasing(resolve::suggest(v, c)),
        resolve::suggest(v, c).contains(id) <==> v.contains(id) || (c is Some
            && model_defaults::model_id(c->0) == Ok::<Seq<char>, Fault>(id)),
{
    if let Some(s) = c {
        if let Ok(x) = model_defaults::model_id(s) {
            text::put_keeps(v, x);
        }
    }
}

/// The models that were seen on agents of a provider are suggested, each
/// once, in order; and no others.
pub proof fn what_was_seen_is_suggested(
    observed: Seq<ObservedView>,
    provider: Seq<char>,
    id: Seq<char>,
)
    ensures
        text::increasing(resolve::suggestions(observed, provider)),
        resolve::suggestions(observed, provider).contains(id) <==> exists|i: int|
            0 <= i < observed.len() && seen(#[trigger] observed[i], provider, id),
    decreases observed.len(),
{
    if observed.len() > 0 {
        let w = observed.drop_last();
        let last = observed.len() - 1;
        let o = observed.last();
        what_was_seen_is_suggested(w, provider, id);
        assert(forall|i: int| 0 <= i < w.len() ==> #[trigger] observed[i] == w[i]);
        let v = resolve::suggestions(w, provider);
        if o.provider == provider {
            suggest_holds(v, o.configured, id);
            suggest_holds(resolve::suggest(v, o.configured), o.reported, id);
        }
        assert(observed[last] == o);
        if exists|i: int| 0 <= i < w.len() && seen(#[trigger] w[i], provider, id) {
            let i = choose|i: int| 0 <= i < w.len() && seen(#[trigger] w[i], provider, id);
            assert(seen(observed[i], provider, id));
        }
        if exists|i: int| 0 <= i < observed.len() && seen(#[trigger] observed[i], provider, id) {
            let i = choose|i: int|
                0 <= i < observed.len() && seen(#[trigger] observed[i], provider, id);
            if i < last {
                assert(seen(w[i], provider, id));
            }
        }
    }
}

} // verus!
