//! What a fresh registration resolves to: an explicit model first, then
//! the default of the role, then the provider's baseline, then whatever
//! the provider runs by itself.
use crate::dict;
use crate::error::Error;
use crate::json;
use crate::json::{array_of, object_of, put_member, show_opt, show_strings, Json, JsonView, Member, MemberView};
use crate::model_defaults;
use crate::model_defaults::document;
use crate::model_defaults::document::show_config;
use crate::model_defaults::scan::Fault;
use crate::model_defaults::{normalize_team_role, parse_model_policy, team_roles, validate_model_id, DefaultsView, ModelDefaults, ModelPolicy, ModelSelector, SelectorView, MAX_STORED_PARAMS, SOURCE_EXPLICIT, SOURCE_EXPLICIT_PROVIDER_DEFAULT, SOURCE_LEGACY_CONFIGURED, SOURCE_LEGACY_PROVIDER_DEFAULT, SOURCE_PROVIDER_BASELINE, SOURCE_PROVIDER_DEFAULT, SOURCE_ROLE_DEFAULT};
use crate::text;
use vstd::prelude::*;

verus! {

/// A fresh registration, beside the defaults it is resolved against.
pub struct ResolveRequest<'a> {
    pub provider: &'a str,
    pub endpoint_kind: &'a str,
    pub runtime_role: &'a str,
    pub team_role: Option<&'a str>,
    pub model_policy: Option<&'a str>,
    pub params: Option<&'a str>,
    pub config: &'a ModelDefaults,
    pub revision: i64,
}

pub struct RequestView {
    pub provider: Seq<char>,
    pub endpoint_kind: Seq<char>,
    pub runtime_role: Seq<char>,
    pub team_role: Option<Seq<char>>,
    pub model_policy: Option<Seq<char>>,
    pub params: Option<Seq<char>>,
    pub config: DefaultsView,
    pub revision: i64,
}

impl<'a> View for ResolveRequest<'a> {
    type V = RequestView;

    open spec fn view(&self) -> RequestView {
        RequestView {
            provider: self.provider@,
            endpoint_kind: self.endpoint_kind@,
            runtime_role: self.runtime_role@,
            team_role: self.team_role.deep_view(),
            model_policy: self.model_policy.deep_view(),
            params: self.params.deep_view(),
            config: self.config@,
            revision: self.revision,
        }
    }
}

/// What a registration resolves to.
#[derive(Debug)]
pub struct ResolvedRegistration {
    pub params: Option<String>,
    pub team_role: Option<String>,
    pub model_selection: Option<Json>,
}

pub struct ResolvedView {
    pub params: Option<Seq<char>>,
    pub team_role: Option<Seq<char>>,
    pub model_selection: Option<JsonView>,
}

impl View for ResolvedRegistration {
    type V = ResolvedView;

    open spec fn view(&self) -> ResolvedView {
        ResolvedView {
            params: self.params.deep_view(),
            team_role: self.team_role.deep_view(),
            model_selection: match self.model_selection {
                Some(j) => Some(j@),
                None => None,
            },
        }
    }
}

/// Why a registration is refused.
pub enum Refusal {
    Invalid(Fault),
    Rejected(Seq<char>),
}

/// The error tells the refusal.
pub open spec fn tells(e: Error, r: Refusal) -> bool {
    match r {
        Refusal::Invalid(f) => e.says(f.code, f.message),
        Refusal::Rejected(m) => e is Rejected && e.text() == m,
    }
}

// ---------- provenance ----------

/// Where a model came from: the source, the role it was looked up for, the
/// revision of the defaults where they decided, and the model.
pub open spec fn selection(
    source: Seq<char>,
    lookup_role: Seq<char>,
    revision: Option<i64>,
    model: Option<Seq<char>>,
) -> JsonView {
    JsonView::Obj(
        seq![
            MemberView { key: "lookup_role"@, value: JsonView::Str(lookup_role) },
            MemberView {
                key: "model"@,
                value: match model {
                    Some(m) => JsonView::Str(m),
                    None => JsonView::Null,
                },
            },
            MemberView {
                key: "revision"@,
                value: match revision {
                    Some(n) => JsonView::Num(text::dec_int(n as int)),
                    None => JsonView::Null,
                },
            },
            MemberView { key: "source"@, value: JsonView::Str(source) },
        ],
    )
}

fn select(source: &str, lookup_role: &str, revision: Option<i64>, model: Option<&str>) -> (r: Json)
    ensures
        r@ == selection(source@, lookup_role@, revision, model.deep_view()),
{
    let mut m: Vec<Member> = Vec::new();
    assert(json::members(m@) =~= seq![]);
    put_member(&mut m, "lookup_role", Json::Str(lookup_role.to_owned()));
    put_member(
        &mut m,
        "model",
        match model {
            Some(s) => Json::Str(s.to_owned()),
            None => Json::Null,
        },
    );
    put_member(
        &mut m,
        "revision",
        match revision {
            Some(n) => Json::Num(text::dec_int_of(n)),
            None => Json::Null,
        },
    );
    put_member(&mut m, "source", Json::Str(source.to_owned()));
    let r = object_of(m);
    assert(r@->Obj_0 =~= selection(source@, lookup_role@, revision, model.deep_view())->Obj_0);
    r
}

/// The provenance of an agent that was registered before there was one:
/// labelled as such, so that no source is made up.
pub fn legacy_selection(
    supports: bool,
    team_role: Option<&str>,
    runtime_role: &str,
    configured: Option<&str>,
) -> (r: Json)
    ensures
        r@ == (if !supports {
            JsonView::Null
        } else {
            selection(
                match configured {
                    Some(_) => "legacy_configured"@,
                    None => "legacy_provider_default"@,
                },
                match team_role {
                    Some(t) => t@,
                    None => runtime_role@,
                },
                None,
                configured.deep_view(),
            )
        }),
{
    if !supports {
        return Json::Null;
    }
    let source = match configured {
        Some(_) => SOURCE_LEGACY_CONFIGURED,
        None => SOURCE_LEGACY_PROVIDER_DEFAULT,
    };
    let role = match team_role {
        Some(t) => t,
        None => runtime_role,
    };
    select(source, role, None, configured)
}

/// The provenance of an explicit model for the next launch; without a
/// model, of the provider's own.
pub fn explicit_override_selection(lookup_role: &str, model: Option<&str>) -> (r: Result<
    Json,
    Error,
>)
    ensures
        match model {
            None => r is Ok && (r->Ok_0)@ == selection(
                "explicit_provider_default"@,
                lookup_role@,
                None,
                None,
            ),
            Some(m) => match (r, model_defaults::model_id(m@)) {
                (Ok(j), Ok(id)) => j@ == selection("explicit"@, lookup_role@, None, Some(id)),
                (Err(e), Err(f)) => e.says(f.code, f.message),
                _ => false,
            },
        },
{
    match model {
        None => Ok(select(SOURCE_EXPLICIT_PROVIDER_DEFAULT, lookup_role, None, None)),
        Some(m) => match validate_model_id(m) {
            Ok(id) => Ok(select(SOURCE_EXPLICIT, lookup_role, None, Some(id.as_str()))),
            Err(e) => Err(e),
        },
    }
}

// ---------- params ----------

/// The entries of a registration's params, from what the parser made of
/// them.
pub open spec fn params_of(parsed: Option<Result<JsonView, Seq<char>>>) -> Option<Seq<MemberView>> {
    match parsed {
        None => Some(seq![]),
        Some(Ok(JsonView::Obj(m))) => Some(m),
        _ => None,
    }
}

/// The model that the params name.
pub open spec fn explicit_model(m: Seq<MemberView>) -> Result<Option<Seq<char>>, Fault> {
    match json::entry(m, "model"@) {
        None => Ok(None),
        Some(JsonView::Str(s)) => match model_defaults::model_id(s) {
            Ok(id) => Ok(Some(id)),
            Err(f) => Err(f),
        },
        Some(_) => Err(
            Fault { code: "invalid_model"@, message: "model must be a non-empty string"@ },
        ),
    }
}

/// The params that are stored: nothing where there are none, the text that
/// was given where nothing changed, and what is left of them printed
/// otherwise.
pub open spec fn stored(
    given: Option<Seq<char>>,
    before: Seq<MemberView>,
    after: Seq<MemberView>,
) -> Result<Option<Seq<char>>, Fault> {
    if after.len() == 0 {
        Ok(None)
    } else {
        let t = if given is Some && before == after {
            given->0
        } else {
            json::printed(JsonView::Obj(after))
        };
        if vstd::utf8::encode_utf8(t).len() > MAX_STORED_PARAMS {
            Err(
                Fault {
                    code: "params_too_large"@,
                    message: "params must be a JSON object of at most 4000 characters"@,
                },
            )
        } else {
            Ok(Some(t))
        }
    }
}

fn store(given: Option<&str>, before: &Json, after: &Json) -> (r: Result<Option<String>, Error>)
    requires
        before@ is Obj,
        after@ is Obj,
    ensures
        match (r, stored(given.deep_view(), before@->Obj_0, after@->Obj_0)) {
            (Ok(s), Ok(t)) => s.deep_view() == t,
            (Err(e), Err(f)) => e.says(f.code, f.message),
            _ => false,
        },
{
    if let Json::Obj(m) = after {
        proof {
            json::members_view(*after, *m);
        }
        if m.len() == 0 {
            return Ok(None);
        }
    }
    let t = match given {
        Some(s) => if json::same(before, after) {
            s.to_owned()
        } else {
            json::print(after)
        },
        None => json::print(after),
    };
    if text::byte_len(t.as_str()) > MAX_STORED_PARAMS {
        return Err(
            Error::Invalid {
                code: "params_too_large",
                message: "params must be a JSON object of at most 4000 characters".to_owned(),
            },
        );
    }
    Ok(Some(t))
}

fn read_explicit(params: &Json) -> (r: Result<Option<String>, Error>)
    requires
        params@ is Obj,
    ensures
        match (r, explicit_model(params@->Obj_0)) {
            (Ok(s), Ok(m)) => s.deep_view() == m,
            (Err(e), Err(f)) => e.says(f.code, f.message),
            _ => false,
        },
{
    match params.get("model") {
        None => Ok(None),
        Some(v) => match v.as_str() {
            Some(s) => match validate_model_id(s) {
                Ok(id) => Ok(Some(id)),
                Err(e) => Err(e),
            },
            None => Err(
                Error::Invalid {
                    code: "invalid_model",
                    message: "model must be a non-empty string".to_owned(),
                },
            ),
        },
    }
}

// ---------- the choice ----------

/// The params under a selector, and the provenance.
pub open spec fn applied(
    m: Seq<MemberView>,
    s: SelectorView,
    source: Seq<char>,
    lookup: Seq<char>,
    revision: i64,
) -> (Seq<MemberView>, JsonView) {
    match s {
        SelectorView::Model(id) => (
            json::with(m, "model"@, JsonView::Str(id)),
            selection(source, lookup, Some(revision), Some(id)),
        ),
        SelectorView::ProviderDefault => (
            json::without(m, "model"@),
            selection(source, lookup, Some(revision), None),
        ),
    }
}

/// What the defaults give: the role's selector, then the provider's
/// baseline, then nothing.
pub open spec fn inherited(
    m: Seq<MemberView>,
    config: DefaultsView,
    provider: Seq<char>,
    lookup: Seq<char>,
    revision: i64,
) -> (Seq<MemberView>, JsonView) {
    match dict::get(config.providers, provider) {
        None => (
            json::without(m, "model"@),
            selection("provider_default"@, lookup, Some(revision), None),
        ),
        Some(p) => match dict::get(p.roles, lookup) {
            Some(s) => applied(m, s, "role_default"@, lookup, revision),
            None => applied(
                m,
                p.default,
                match p.default {
                    SelectorView::Model(_) => "provider_baseline"@,
                    SelectorView::ProviderDefault => "provider_default"@,
                },
                lookup,
                revision,
            ),
        },
    }
}

/// The params and the provenance of an endpoint that takes a model.
pub open spec fn chosen(
    q: RequestView,
    m: Seq<MemberView>,
    explicit: Option<Seq<char>>,
    policy: ModelPolicy,
    lookup: Seq<char>,
) -> (Seq<MemberView>, JsonView) {
    match explicit {
        Some(id) => (
            json::with(m, "model"@, JsonView::Str(id)),
            selection("explicit"@, lookup, None, Some(id)),
        ),
        None => if policy is ProviderDefault {
            (
                json::without(m, "model"@),
                selection("explicit_provider_default"@, lookup, None, None),
            )
        } else {
            inherited(m, q.config, q.provider, lookup, q.revision)
        },
    }
}

/// The role that the defaults are looked up for.
pub open spec fn lookup_role(q: RequestView, team: Option<Seq<char>>) -> Seq<char> {
    match team {
        Some(t) => t,
        None => q.runtime_role,
    }
}

/// The team role of a registration.
pub open spec fn team_of(q: RequestView) -> Result<Option<Seq<char>>, Fault> {
    match q.team_role {
        None => Ok(None),
        Some(raw) => match model_defaults::team_role(raw) {
            Ok(k) => Ok(Some(k)),
            Err(f) => Err(f),
        },
    }
}

/// What a registration resolves to, from what the parser made of its
/// params and whether its endpoint takes a model.
pub open spec fn resolved(
    q: RequestView,
    parsed: Option<Result<JsonView, Seq<char>>>,
    supports: bool,
) -> Result<ResolvedView, Refusal> {
    match (team_of(q), model_defaults::policy(q.model_policy), params_of(parsed)) {
        (Err(f), _, _) => Err(Refusal::Invalid(f)),
        (_, Err(f), _) => Err(Refusal::Invalid(f)),
        (_, _, None) => Err(Refusal::Rejected("params must be a JSON object"@)),
        (Ok(team), Ok(policy), Some(m)) => match explicit_model(m) {
            Err(f) => Err(Refusal::Invalid(f)),
            Ok(explicit) => if explicit is Some && policy is ProviderDefault {
                Err(
                    Refusal::Invalid(
                        Fault {
                            code: "conflicting_model_policy"@,
                            message: "an explicit model cannot be combined with model_policy provider_default"@,
                        },
                    ),
                )
            } else if !supports && policy is ProviderDefault {
                Err(
                    Refusal::Invalid(
                        Fault {
                            code: "unsupported_model_setting"@,
                            message: "provider '"@ + q.provider + "' endpoint '"@ + q.endpoint_kind
                                + "' does not accept a model"@,
                        },
                    ),
                )
            } else {
                let (after, source) = if supports {
                    let (a, s) = chosen(q, m, explicit, policy, lookup_role(q, team));
                    (a, Some(s))
                } else {
                    (m, None)
                };
                match stored(q.params, m, after) {
                    Err(f) => Err(Refusal::Invalid(f)),
                    Ok(params) => Ok(
                        ResolvedView { params, team_role: team, model_selection: source },
                    ),
                }
            },
        },
    }
}

fn set_model(params: Json, id: &str) -> (r: Json)
    requires
        params@ is Obj,
    ensures
        r@ == JsonView::Obj(json::with(params@->Obj_0, "model"@, JsonView::Str(id@))),
{
    let ghost p = params;
    match params {
        Json::Obj(m) => {
            proof {
                json::members_view(p, m);
            }
            object_of(json::set_key(m, "model", Json::Str(id.to_owned())))
        },
        other => other,
    }
}

fn drop_model(params: Json) -> (r: Json)
    requires
        params@ is Obj,
    ensures
        r@ == JsonView::Obj(json::without(params@->Obj_0, "model"@)),
{
    let ghost p = params;
    match params {
        Json::Obj(m) => {
            proof {
                json::members_view(p, m);
            }
            object_of(json::remove_key(m, "model"))
        },
        other => other,
    }
}

fn apply_selector(params: Json, s: &ModelSelector, source: &str, lookup: &str, revision: i64) -> (r: (
    Json,
    Json,
))
    requires
        params@ is Obj,
    ensures
        r.0@ == JsonView::Obj(applied(params@->Obj_0, s@, source@, lookup@, revision).0),
        r.1@ == applied(params@->Obj_0, s@, source@, lookup@, revision).1,
{
    match s {
        ModelSelector::Model { model } => (
            set_model(params, model.as_str()),
            select(source, lookup, Some(revision), Some(model.as_str())),
        ),
        ModelSelector::ProviderDefault => (
            drop_model(params),
            select(source, lookup, Some(revision), None),
        ),
    }
}

fn inherit(params: Json, config: &ModelDefaults, provider: &str, lookup: &str, revision: i64) -> (r: (
    Json,
    Json,
))
    requires
        params@ is Obj,
    ensures
        r.0@ == JsonView::Obj(
            inherited(params@->Obj_0, config@, provider@, lookup@, revision).0,
        ),
        r.1@ == inherited(params@->Obj_0, config@, provider@, lookup@, revision).1,
{
    let entry = match dict::find(&config.providers, provider) {
        Some(p) => p,
        None => {
            return (
                drop_model(params),
                select(SOURCE_PROVIDER_DEFAULT, lookup, Some(revision), None),
            );
        },
    };
    match dict::find(&entry.roles, lookup) {
        Some(s) => apply_selector(params, s, SOURCE_ROLE_DEFAULT, lookup, revision),
        None => {
            let source = match &entry.default {
                ModelSelector::Model { model } => SOURCE_PROVIDER_BASELINE,
                ModelSelector::ProviderDefault => SOURCE_PROVIDER_DEFAULT,
            };
            apply_selector(params, &entry.default, source, lookup, revision)
        },
    }
}

pub open spec fn parsed_view(parsed: Option<Result<Json, String>>) -> Option<
    Result<JsonView, Seq<char>>,
> {
    match parsed {
        None => None,
        Some(Ok(j)) => Some(Ok(j@)),
        Some(Err(e)) => Some(Err(e@)),
    }
}

pub open spec fn resolves(
    r: Result<ResolvedRegistration, Error>,
    s: Result<ResolvedView, Refusal>,
) -> bool {
    match (r, s) {
        (Ok(x), Ok(y)) => x@ == y,
        (Err(e), Err(f)) => tells(e, f),
        _ => false,
    }
}

fn params_object(parsed: Option<Result<Json, String>>) -> (r: Option<Json>)
    ensures
        match (r, params_of(parsed_view(parsed))) {
            (Some(j), Some(m)) => j@ == JsonView::Obj(m),
            (None, None) => true,
            _ => false,
        },
{
    match parsed {
        None => {
            let none: Vec<Member> = Vec::new();
            assert(json::members(none@) =~= seq![]);
            Some(object_of(none))
        },
        Some(Ok(j)) => if j.is_obj() {
            Some(j)
        } else {
            None
        },
        Some(Err(_)) => None,
    }
}

/// Resolves a registration from what the parser made of its params and
/// whether its endpoint takes a model.
pub fn resolve_parsed(
    request: &ResolveRequest<'_>,
    parsed: Option<Result<Json, String>>,
    supports: bool,
) -> (r: Result<ResolvedRegistration, Error>)
    ensures
        resolves(r, resolved(request@, parsed_view(parsed), supports)),
{
    let team_role = match request.team_role {
        Some(raw) => match normalize_team_role(raw) {
            Ok(k) => Some(k),
            Err(e) => {
                return Err(e);
            },
        },
        None => None,
    };
    assert(team_of(request@) == Ok::<Option<Seq<char>>, Fault>(team_role.deep_view()));
    let policy = match parse_model_policy(request.model_policy) {
        Ok(p) => p,
        Err(e) => {
            return Err(e);
        },
    };
    let params = match params_object(parsed) {
        Some(j) => j,
        None => {
            return Err(Error::Rejected("params must be a JSON object".to_owned()));
        },
    };
    let explicit = match read_explicit(&params) {
        Ok(m) => m,
        Err(e) => {
            return Err(e);
        },
    };
    if explicit.is_some() && policy == ModelPolicy::ProviderDefault {
        return Err(
            Error::Invalid {
                code: "conflicting_model_policy",
                message: "an explicit model cannot be combined with model_policy provider_default".to_owned(),
            },
        );
    }
    if !supports {
        if policy == ModelPolicy::ProviderDefault {
            return Err(
                Error::Invalid {
                    code: "unsupported_model_setting",
                    message: "provider '".to_owned().concat(request.provider).concat(
                        "' endpoint '",
                    ).concat(request.endpoint_kind).concat("' does not accept a model"),
                },
            );
        }
        return match store(request.params, &params, &params) {
            Ok(params) => Ok(
                ResolvedRegistration { params, team_role, model_selection: None },
            ),
            Err(e) => Err(e),
        };
    }
    let lookup = match &team_role {
        Some(t) => t.clone(),
        None => request.runtime_role.to_owned(),
    };
    let before = json::copy(&params);
    let (after, source) = match &explicit {
        Some(id) => (
            set_model(params, id.as_str()),
            select(SOURCE_EXPLICIT, lookup.as_str(), None, Some(id.as_str())),
        ),
        None => if policy == ModelPolicy::ProviderDefault {
            (
                drop_model(params),
                select(SOURCE_EXPLICIT_PROVIDER_DEFAULT, lookup.as_str(), None, None),
            )
        } else {
            inherit(params, request.config, request.provider, lookup.as_str(), request.revision)
        },
    };
    match store(request.params, &before, &after) {
        Ok(params) => Ok(
            ResolvedRegistration { params, team_role, model_selection: Some(source) },
        ),
        Err(e) => Err(e),
    }
}

/// What the parser makes of a registration's params.
pub open spec fn parsed_params(q: RequestView) -> Option<Result<JsonView, Seq<char>>> {
    match q.params {
        None => None,
        Some(t) => Some(json::parsed(t)),
    }
}

/// Resolves a fresh registration against a snapshot of the defaults.
/// `supports` says whether its endpoint takes a model.
pub fn resolve(request: &ResolveRequest<'_>, supports: bool) -> (r: Result<
    ResolvedRegistration,
    Error,
>)
    ensures
        resolves(r, resolved(request@, parsed_params(request@), supports)),
{
    let parsed = match request.params {
        Some(t) => Some(json::parse(t)),
        None => None,
    };
    assert(parsed_view(parsed) == parsed_params(request@));
    resolve_parsed(request, parsed, supports)
}

// ---------- the snapshot ----------

/// The models seen on an agent, which only label suggestions.
pub struct ObservedModel<'a> {
    pub provider: &'a str,
    pub configured: Option<&'a str>,
    pub reported: Option<&'a str>,
}

pub struct ObservedView {
    pub provider: Seq<char>,
    pub configured: Option<Seq<char>>,
    pub reported: Option<Seq<char>>,
}

impl<'a> View for ObservedModel<'a> {
    type V = ObservedView;

    open spec fn view(&self) -> ObservedView {
        ObservedView {
            provider: self.provider@,
            configured: self.configured.deep_view(),
            reported: self.reported.deep_view(),
        }
    }
}

pub open spec fn observed_views(v: Seq<ObservedModel<'_>>) -> Seq<ObservedView> {
    v.map_values(|o: ObservedModel<'_>| o@)
}

/// How a provider is shown that the registry gives no label.
pub open spec fn label_of(id: Seq<char>) -> Seq<char> {
    if id == "codex"@ {
        "Codex"@
    } else if id == "cursor"@ {
        "Cursor"@
    } else if id == "devin"@ {
        "Devin"@
    } else {
        id
    }
}

/// How a provider is shown: by its name where it is a known one, else by
/// its id.
pub fn provider_label(id: &str) -> (r: String)
    ensures
        r@ == label_of(id@),
{
    if text::eq(id, "codex") {
        "Codex".to_owned()
    } else if text::eq(id, "cursor") {
        "Cursor".to_owned()
    } else if text::eq(id, "devin") {
        "Devin".to_owned()
    } else {
        id.to_owned()
    }
}

/// A provider as the registry lists it.
#[derive(Debug, Clone)]
pub struct ProviderRow {
    pub id: String,
    /// How the registry shows the provider, where it says so.
    pub label: Option<String>,
    pub eligible: bool,
    pub kinds: Vec<String>,
    pub limitation: Option<String>,
}

pub struct RowView {
    pub id: Seq<char>,
    pub label: Option<Seq<char>>,
    pub eligible: bool,
    pub kinds: Seq<Seq<char>>,
    pub limitation: Option<Seq<char>>,
}

impl View for ProviderRow {
    type V = RowView;

    open spec fn view(&self) -> RowView {
        RowView {
            id: self.id@,
            label: self.label.deep_view(),
            eligible: self.eligible,
            kinds: self.kinds.deep_view(),
            limitation: self.limitation.deep_view(),
        }
    }
}

/// A candidate joins the suggestions where it is a model id.
pub open spec fn suggest(v: Seq<Seq<char>>, candidate: Option<Seq<char>>) -> Seq<Seq<char>> {
    match candidate {
        Some(c) => match model_defaults::model_id(c) {
            Ok(id) => text::put(v, id),
            Err(f) => v,
        },
        None => v,
    }
}

/// The models seen on agents of a provider, sorted, each once.
pub open spec fn suggestions(observed: Seq<ObservedView>, id: Seq<char>) -> Seq<Seq<char>>
    decreases observed.len(),
{
    if observed.len() == 0 {
        seq![]
    } else {
        let v = suggestions(observed.drop_last(), id);
        let o = observed.last();
        if o.provider == id {
            suggest(suggest(v, o.configured), o.reported)
        } else {
            v
        }
    }
}

pub open spec fn row_json(row: RowView, observed: Seq<ObservedView>) -> JsonView {
    JsonView::Obj(
        seq![
            MemberView { key: "eligible"@, value: JsonView::Bool(row.eligible) },
            MemberView { key: "id"@, value: JsonView::Str(row.id) },
            MemberView { key: "kinds"@, value: json::strings(row.kinds) },
            MemberView {
                key: "label"@,
                value: JsonView::Str(
                    match row.label {
                        Some(s) => s,
                        None => label_of(row.id),
                    },
                ),
            },
            MemberView {
                key: "limitation"@,
                value: json::opt_string(row.limitation),
            },
            MemberView {
                key: "suggestions"@,
                value: json::strings(
                    if row.eligible {
                        suggestions(observed, row.id)
                    } else {
                        seq![]
                    },
                ),
            },
            MemberView {
                key: "suggestions_note"@,
                value: JsonView::Str(
                    "Previously observed on agents of this provider. Not a provider catalog."@,
                ),
            },
        ],
    )
}

pub open spec fn team_json(p: (Seq<char>, Seq<char>)) -> JsonView {
    JsonView::Obj(
        seq![
            MemberView { key: "id"@, value: JsonView::Str(p.0) },
            MemberView { key: "label"@, value: JsonView::Str(p.1) },
        ],
    )
}

/// What the settings page shows.
pub open spec fn snapshot(
    revision: i64,
    config: DefaultsView,
    observed: Seq<ObservedView>,
    matrix: Seq<RowView>,
) -> JsonView {
    JsonView::Obj(
        seq![
            MemberView { key: "config"@, value: document::config_json(config) },
            MemberView {
                key: "providers"@,
                value: JsonView::Arr(matrix.map_values(|r: RowView| row_json(r, observed))),
            },
            MemberView { key: "revision"@, value: JsonView::Num(text::dec_int(revision as int)) },
            MemberView {
                key: "roles"@,
                value: JsonView::Arr(
                    model_defaults::team_roles_view().map_values(
                        |p: (Seq<char>, Seq<char>)| team_json(p),
                    ),
                ),
            },
        ],
    )
}

fn offer(v: &mut Vec<String>, candidate: Option<&str>)
    requires
        text::increasing(old(v).deep_view()),
    ensures
        final(v).deep_view() == suggest(old(v).deep_view(), candidate.deep_view()),
        text::increasing(final(v).deep_view()),
{
    if let Some(c) = candidate {
        if let Ok(id) = validate_model_id(c) {
            text::insert_name(v, id.as_str());
        }
    }
}

fn suggestions_of(observed: &Vec<ObservedModel<'_>>, id: &str) -> (r: Vec<String>)
    ensures
        r.deep_view() == suggestions(observed_views(observed@), id@),
{
    let ghost d = observed_views(observed@);
    let mut out: Vec<String> = Vec::new();
    let mut i: usize = 0;
    assert(out.deep_view() =~= seq![]);
    assert(d.take(0) =~= seq![]);
    while i < observed.len()
        invariant
            d == observed_views(observed@),
            i <= observed@.len(),
            text::increasing(out.deep_view()),
            out.deep_view() == suggestions(d.take(i as int), id@),
        decreases observed.len() - i,
    {
        assert(d.take(i + 1).drop_last() =~= d.take(i as int));
        assert(d.take(i + 1).last() == observed@[i as int]@);
        if text::eq(observed[i].provider, id) {
            offer(&mut out, observed[i].configured);
            offer(&mut out, observed[i].reported);
        }
        i = i + 1;
    }
    assert(d.take(i as int) =~= d);
    out
}

fn show_row(row: &ProviderRow, observed: &Vec<ObservedModel<'_>>) -> (r: Json)
    ensures
        r@ == row_json(row@, observed_views(observed@)),
{
    let seen: Vec<String> = if row.eligible {
        suggestions_of(observed, row.id.as_str())
    } else {
        Vec::new()
    };
    assert(!row.eligible ==> seen.deep_view() =~= seq![]);
    let mut m: Vec<Member> = Vec::new();
    assert(json::members(m@) =~= seq![]);
    put_member(&mut m, "eligible", Json::Bool(row.eligible));
    put_member(&mut m, "id", Json::Str(row.id.clone()));
    put_member(&mut m, "kinds", show_strings(&row.kinds));
    let label = match &row.label {
        Some(s) => s.clone(),
        None => provider_label(row.id.as_str()),
    };
    put_member(&mut m, "label", Json::Str(label));
    put_member(&mut m, "limitation", show_opt(&row.limitation));
    put_member(&mut m, "suggestions", show_strings(&seen));
    put_member(
        &mut m,
        "suggestions_note",
        Json::Str(
            "Previously observed on agents of this provider. Not a provider catalog.".to_owned(),
        ),
    );
    let r = object_of(m);
    assert(r@->Obj_0 =~= row_json(row@, observed_views(observed@))->Obj_0);
    r
}

fn show_team_roles() -> (r: Json)
    ensures
        r@ == JsonView::Arr(
            model_defaults::team_roles_view().map_values(
                |p: (Seq<char>, Seq<char>)| team_json(p),
            ),
        ),
{
    let all = team_roles();
    let ghost d = all@.map_values(|p: (&'static str, &'static str)| (p.0@, p.1@));
    let mut out: Vec<Json> = Vec::new();
    let mut i: usize = 0;
    while i < all.len()
        invariant
            d == all@.map_values(|p: (&'static str, &'static str)| (p.0@, p.1@)),
            i <= all@.len(),
            out@.len() == i,
            forall|k: int| 0 <= k < i ==> (#[trigger] out@[k])@ == team_json(d[k]),
        decreases all.len() - i,
    {
        let mut m: Vec<Member> = Vec::new();
        assert(json::members(m@) =~= seq![]);
        put_member(&mut m, "id", Json::Str(all[i].0.to_owned()));
        put_member(&mut m, "label", Json::Str(all[i].1.to_owned()));
        let j = object_of(m);
        assert(j@->Obj_0 =~= team_json(d[i as int])->Obj_0);
        out.push(j);
        i = i + 1;
    }
    let r = array_of(out);
    assert(r@->Arr_0 =~= model_defaults::team_roles_view().map_values(
        |p: (Seq<char>, Seq<char>)| team_json(p),
    ));
    r
}

pub open spec fn row_views(v: Seq<ProviderRow>) -> Seq<RowView> {
    v.map_values(|r: ProviderRow| r@)
}

/// What the settings page shows: the config and its revision, the
/// registry's providers with the models seen on their agents, and the team
/// roles.
pub fn snapshot_json(
    revision: i64,
    config: &ModelDefaults,
    observed: &Vec<ObservedModel<'_>>,
    matrix: &Vec<ProviderRow>,
) -> (r: Json)
    ensures
        r@ == snapshot(revision, config@, observed_views(observed@), row_views(matrix@)),
{
    let ghost o = observed_views(observed@);
    let ghost d = row_views(matrix@);
    let mut rows: Vec<Json> = Vec::new();
    let mut i: usize = 0;
    while i < matrix.len()
        invariant
            o == observed_views(observed@),
            d == row_views(matrix@),
            i <= matrix@.len(),
            rows@.len() == i,
            forall|k: int| 0 <= k < i ==> (#[trigger] rows@[k])@ == row_json(d[k], o),
        decreases matrix.len() - i,
    {
        rows.push(show_row(&matrix[i], observed));
        i = i + 1;
    }
    let ghost rv = rows@;
    let mut m: Vec<Member> = Vec::new();
    assert(json::members(m@) =~= seq![]);
    put_member(&mut m, "config", show_config(config));
    put_member(&mut m, "providers", array_of(rows));
    assert(rv.map_values(|x: Json| x@) =~= d.map_values(|r: RowView| row_json(r, o)));
    put_member(&mut m, "revision", Json::Num(text::dec_int_of(revision)));
    put_member(&mut m, "roles", show_team_roles());
    let r = object_of(m);
    assert(r@->Obj_0 =~= snapshot(revision, config@, o, d)->Obj_0);
    r
}

// ---------- laws ----------

/// An explicit model wins over every default, and no revision of the
/// defaults is recorded with it.
pub proof fn an_explicit_model_wins(
    q: RequestView,
    parsed: Option<Result<JsonView, Seq<char>>>,
    id: Seq<char>,
)
    requires
        resolved(q, parsed, true) is Ok,
        params_of(parsed) is Some,
        explicit_model(params_of(parsed)->0) == Ok::<Option<Seq<char>>, Fault>(Some(id)),
    ensures
        (resolved(q, parsed, true)->Ok_0).model_selection == Some(
            selection("explicit"@, lookup_role(q, team_of(q)->Ok_0), None, Some(id)),
        ),
{
}

/// Without an explicit model the role's default comes first, the
/// provider's baseline second.
pub proof fn role_then_baseline_then_native(
    m: Seq<MemberView>,
    config: DefaultsView,
    provider: Seq<char>,
    lookup: Seq<char>,
    revision: i64,
)
    ensures
        match dict::get(config.providers, provider) {
            Some(p) => match (dict::get(p.roles, lookup), p.default) {
                (Some(SelectorView::Model(id)), _) => inherited(
                    m,
                    config,
                    provider,
                    lookup,
                    revision,
                ).1 == selection("role_default"@, lookup, Some(revision), Some(id)),
                (Some(SelectorView::ProviderDefault), _) => inherited(
                    m,
                    config,
                    provider,
                    lookup,
                    revision,
                ).1 == selection("role_default"@, lookup, Some(revision), None),
                (None, SelectorView::Model(id)) => inherited(
                    m,
                    config,
                    provider,
                    lookup,
                    revision,
                ).1 == selection("provider_baseline"@, lookup, Some(revision), Some(id)),
                (None, SelectorView::ProviderDefault) => inherited(
                    m,
                    config,
                    provider,
                    lookup,
                    revision,
                ).1 == selection("provider_default"@, lookup, Some(revision), None),
            },
            None => inherited(m, config, provider, lookup, revision).1 == selection(
                "provider_default"@,
                lookup,
                Some(revision),
                None,
            ),
        },
{
}

/// The model that a provenance records.
pub open spec fn recorded(s: JsonView) -> Option<JsonView> {
    match json::field(s, "model"@) {
        Some(JsonView::Null) => None,
        other => other,
    }
}

/// The choice changes nothing of the params but the model, and leaves in
/// them exactly the model that the provenance records.
pub proof fn only_the_model_changes(
    q: RequestView,
    m: Seq<MemberView>,
    explicit: Option<Seq<char>>,
    policy: ModelPolicy,
    lookup: Seq<char>,
    k: Seq<char>,
)
    ensures
        k != "model"@ ==> json::entry(chosen(q, m, explicit, policy, lookup).0, k) == json::entry(
            m,
            k,
        ),
        json::entry(chosen(q, m, explicit, policy, lookup).0, "model"@) == recorded(
            chosen(q, m, explicit, policy, lookup).1,
        ),
{
    let (a, s) = chosen(q, m, explicit, policy, lookup);
    let key = "model"@;
    json::without_entry(m, key, k);
    json::without_entry(m, key, key);
    let id = match (explicit, dict::get(q.config.providers, q.provider)) {
        (Some(id), _) => id,
        (None, Some(p)) => match dict::get(p.roles, lookup) {
            Some(SelectorView::Model(id)) => id,
            Some(_) => seq![],
            None => match p.default {
                SelectorView::Model(id) => id,
                _ => seq![],
            },
        },
        _ => seq![],
    };
    json::with_entry(m, key, JsonView::Str(id), k);
    json::with_entry(m, key, JsonView::Str(id), key);
    reveal_strlit("lookup_role");
    reveal_strlit("model");
    assert("lookup_role"@.len() == 11 && "model"@.len() == 5);
    reveal_with_fuel(json::entry, 3);
    let d = s->Obj_0;
    assert(d.drop_first()[0] == d[1]);
}

/// An endpoint that takes no model gets none: its params stay as given.
pub proof fn an_unsupported_endpoint_gets_no_model(
    q: RequestView,
    parsed: Option<Result<JsonView, Seq<char>>>,
)
    requires
        resolved(q, parsed, false) is Ok,
        q.params is None ==> parsed is None,
    ensures
        (resolved(q, parsed, false)->Ok_0).model_selection is None,
        (resolved(q, parsed, false)->Ok_0).params == (if (params_of(parsed)->0).len() == 0 {
            None
        } else {
            q.params
        }),
{
}

/// Params are never stored over the limit.
pub proof fn stored_params_are_bounded(
    q: RequestView,
    parsed: Option<Result<JsonView, Seq<char>>>,
    supports: bool,
)
    requires
        resolved(q, parsed, supports) is Ok,
    ensures
        match (resolved(q, parsed, supports)->Ok_0).params {
            Some(t) => vstd::utf8::encode_utf8(t).len() <= MAX_STORED_PARAMS,
            None => true,
        },
{
}

} // verus!
