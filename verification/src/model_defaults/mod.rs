//! Host-wide model defaults, and what a fresh registration resolves to
//! under them. Defaults never rewrite an agent that exists, and never
//! change what a runtime role may do; a team role is a key of its own.
pub mod document;
pub mod laws;
pub mod resolve;
pub mod scan;
pub mod scan_laws;

use crate::dict;
use crate::error::Error;
use crate::model_defaults::scan::Fault;
use crate::text;
use vstd::prelude::*;

verus! {

/// The bytes of a model id.
pub const MAX_MODEL_BYTES: usize = 200;

/// The bytes of a config in a settings body.
pub const MAX_CONFIG_BYTES: usize = 16384;

/// The bytes of a settings body.
pub const MAX_HTTP_BODY_BYTES: usize = 20480;

/// The bytes of an agent's stored params.
pub const MAX_STORED_PARAMS: usize = 4000;

pub const SOURCE_EXPLICIT: &'static str = "explicit";

pub const SOURCE_EXPLICIT_PROVIDER_DEFAULT: &'static str = "explicit_provider_default";

pub const SOURCE_ROLE_DEFAULT: &'static str = "role_default";

pub const SOURCE_PROVIDER_BASELINE: &'static str = "provider_baseline";

pub const SOURCE_PROVIDER_DEFAULT: &'static str = "provider_default";

pub const SOURCE_LEGACY_CONFIGURED: &'static str = "legacy_configured";

pub const SOURCE_LEGACY_PROVIDER_DEFAULT: &'static str = "legacy_provider_default";

/// What a registration asks for where it names no model.
#[derive(Debug, Clone, Copy, PartialEq, Eq, Structural)]
pub enum ModelPolicy {
    Inherit,
    ProviderDefault,
}

/// A model, or whatever the provider runs by itself.
#[derive(Debug, Clone, PartialEq, Eq)]
pub enum ModelSelector {
    Model { model: String },
    ProviderDefault,
}

pub enum SelectorView {
    Model(Seq<char>),
    ProviderDefault,
}

impl View for ModelSelector {
    type V = SelectorView;

    open spec fn view(&self) -> SelectorView {
        match *self {
            ModelSelector::Model { model } => SelectorView::Model(model@),
            ModelSelector::ProviderDefault => SelectorView::ProviderDefault,
        }
    }
}

/// The defaults of a provider: a baseline, and one per team role.
#[derive(Debug, Clone, PartialEq, Eq)]
pub struct ProviderDefaults {
    pub default: ModelSelector,
    pub roles: Vec<(String, ModelSelector)>,
}

pub struct ProviderView {
    pub default: SelectorView,
    pub roles: Seq<(Seq<char>, SelectorView)>,
}

impl View for ProviderDefaults {
    type V = ProviderView;

    open spec fn view(&self) -> ProviderView {
        ProviderView { default: self.default@, roles: dict::pairs(self.roles@) }
    }
}

/// The defaults of a host, by provider.
#[derive(Debug, Clone, PartialEq, Eq)]
pub struct ModelDefaults {
    pub schema: u32,
    pub providers: Vec<(String, ProviderDefaults)>,
}

pub struct DefaultsView {
    pub schema: u32,
    pub providers: Seq<(Seq<char>, ProviderView)>,
}

impl View for ModelDefaults {
    type V = DefaultsView;

    open spec fn view(&self) -> DefaultsView {
        DefaultsView { schema: self.schema, providers: dict::pairs(self.providers@) }
    }
}

impl DefaultsView {
    /// Providers and roles stand in order, each once.
    pub open spec fn wf(self) -> bool {
        &&& dict::ordered(self.providers)
        &&& forall|i: int|
            0 <= i < self.providers.len() ==> dict::ordered((#[trigger] self.providers[i]).1.roles)
    }
}

impl ModelDefaults {
    pub fn empty() -> (r: Self)
        ensures
            r@ == (DefaultsView { schema: 1, providers: seq![] }),
            r@.wf(),
    {
        let r = ModelDefaults { schema: 1, providers: Vec::new() };
        assert(r@.providers =~= seq![]);
        r
    }
}

/// A saved document, and the revision it is to replace.
#[derive(Debug, Clone, PartialEq, Eq)]
pub struct SettingsWrite {
    pub expected_revision: i64,
    pub config: ModelDefaults,
}

/// Who a change is attributed to, and how it came.
#[derive(Debug, Clone, PartialEq, Eq)]
pub struct Attribution {
    pub actor: String,
    pub transport: &'static str,
}

// ---------- ids, roles and policies ----------

/// A character that no model id and no name may hold stands in the text.
pub open spec fn has_control(s: Seq<char>) -> bool {
    exists|i: int| 0 <= i < s.len() && text::control(#[trigger] s[i])
}

fn any_control(s: &str) -> (r: bool)
    ensures
        r == has_control(s@),
{
    let v = text::chars_of(s);
    let mut i: usize = 0;
    while i < v.len()
        invariant
            v@ == s@,
            i <= v@.len(),
            forall|k: int| 0 <= k < i ==> !text::control(#[trigger] s@[k]),
        decreases v.len() - i,
    {
        if text::is_control(v[i]) {
            assert(text::control(s@[i as int]));
            return true;
        }
        i = i + 1;
    }
    false
}

/// What a model id comes to.
pub open spec fn model_id(raw: Seq<char>) -> Result<Seq<char>, Fault> {
    let id = text::trim(raw);
    let bad = |m: Seq<char>| Err::<Seq<char>, Fault>(Fault { code: "invalid_model"@, message: m });
    if id.len() == 0 {
        bad("model id must be a non-empty string"@)
    } else if vstd::utf8::encode_utf8(id).len() > MAX_MODEL_BYTES {
        bad("model id must be at most 200 bytes"@)
    } else if has_control(id) {
        bad("model id must not contain control characters"@)
    } else {
        Ok(id)
    }
}

fn bad_model(message: &str) -> (e: Error)
    ensures
        e.says("invalid_model"@, message@),
{
    Error::Invalid { code: "invalid_model", message: message.to_owned() }
}

/// Trims a model id and checks it.
pub fn validate_model_id(raw: &str) -> (r: Result<String, Error>)
    ensures
        match (r, model_id(raw@)) {
            (Ok(s), Ok(id)) => s@ == id,
            (Err(e), Err(f)) => e.says(f.code, f.message),
            _ => false,
        },
{
    let id = text::trim_of(raw);
    if id.as_str().unicode_len() == 0 {
        return Err(bad_model("model id must be a non-empty string"));
    }
    if text::byte_len(id.as_str()) > MAX_MODEL_BYTES {
        return Err(bad_model("model id must be at most 200 bytes"));
    }
    if any_control(id.as_str()) {
        return Err(bad_model("model id must not contain control characters"));
    }
    Ok(id)
}

/// The team roles: their keys and how they are shown.
pub open spec fn team_roles_view() -> Seq<(Seq<char>, Seq<char>)> {
    seq![
        ("pm"@, "PM"@),
        ("research"@, "Research"@),
        ("architect"@, "Architect"@),
        ("dev"@, "Developer"@),
        ("qa"@, "QA"@),
        ("devops"@, "DevOps"@),
        ("worker"@, "Worker"@),
    ]
}

/// The team roles. `ops` is another way to write `devops` at launch, and
/// no key of its own.
pub fn team_roles() -> (r: Vec<(&'static str, &'static str)>)
    ensures
        r@.map_values(|p: (&'static str, &'static str)| (p.0@, p.1@)) == team_roles_view(),
{
    let mut r: Vec<(&'static str, &'static str)> = Vec::new();
    r.push(("pm", "PM"));
    r.push(("research", "Research"));
    r.push(("architect", "Architect"));
    r.push(("dev", "Developer"));
    r.push(("qa", "QA"));
    r.push(("devops", "DevOps"));
    r.push(("worker", "Worker"));
    assert(r@.map_values(|p: (&'static str, &'static str)| (p.0@, p.1@)) =~= team_roles_view());
    r
}

pub open spec fn canonical(role: Seq<char>) -> bool {
    exists|i: int| 0 <= i < team_roles_view().len() && (#[trigger] team_roles_view()[i]).0 == role
}

/// The role is a key that is stored.
pub fn canonical_team_role(role: &str) -> (r: bool)
    ensures
        r == canonical(role@),
{
    let all = team_roles();
    let ghost d = all@.map_values(|p: (&'static str, &'static str)| (p.0@, p.1@));
    let mut i: usize = 0;
    while i < all.len()
        invariant
            d == all@.map_values(|p: (&'static str, &'static str)| (p.0@, p.1@)),
            d == team_roles_view(),
            i <= all@.len(),
            forall|k: int| 0 <= k < i ==> (#[trigger] d[k]).0 != role@,
        decreases all.len() - i,
    {
        assert(d[i as int].0 == all@[i as int].0@);
        if text::eq(all[i].0, role) {
            return true;
        }
        i = i + 1;
    }
    false
}

/// The key that a launch's team role stands for.
pub open spec fn role_key(raw: Seq<char>) -> Seq<char> {
    let key = text::smalls(text::trim(raw));
    if key == "ops"@ {
        "devops"@
    } else {
        key
    }
}

pub open spec fn team_role(raw: Seq<char>) -> Result<Seq<char>, Fault> {
    let bad = |m: Seq<char>|
        Err::<Seq<char>, Fault>(Fault { code: "invalid_team_role"@, message: m });
    if text::trim(raw).len() == 0 {
        bad("team role must be a non-empty string"@)
    } else if canonical(role_key(raw)) {
        Ok(role_key(raw))
    } else {
        bad(
            "unknown team role '"@ + raw
                + "' — expected one of: pm, research, architect, dev, qa, devops, worker"@,
        )
    }
}

/// The key of a team role given at launch: an unknown one is refused, not
/// kept as a new authority.
pub fn normalize_team_role(raw: &str) -> (r: Result<String, Error>)
    ensures
        match (r, team_role(raw@)) {
            (Ok(s), Ok(k)) => s@ == k,
            (Err(e), Err(f)) => e.says(f.code, f.message),
            _ => false,
        },
{
    let key = text::to_small(text::trim_of(raw).as_str());
    if key.as_str().unicode_len() == 0 {
        return Err(
            Error::Invalid {
                code: "invalid_team_role",
                message: "team role must be a non-empty string".to_owned(),
            },
        );
    }
    let key = if text::eq(key.as_str(), "ops") {
        "devops".to_owned()
    } else {
        key
    };
    if canonical_team_role(key.as_str()) {
        Ok(key)
    } else {
        Err(
            Error::Invalid {
                code: "invalid_team_role",
                message: "unknown team role '".to_owned().concat(raw).concat(
                    "' — expected one of: pm, research, architect, dev, qa, devops, worker",
                ),
            },
        )
    }
}

pub open spec fn policy(raw: Option<Seq<char>>) -> Result<ModelPolicy, Fault> {
    match raw {
        None => Ok(ModelPolicy::Inherit),
        Some(s) => if text::trim(s) == "inherit"@ {
            Ok(ModelPolicy::Inherit)
        } else if text::trim(s) == "provider_default"@ {
            Ok(ModelPolicy::ProviderDefault)
        } else {
            Err(
                Fault {
                    code: "invalid_model_policy"@,
                    message: "model_policy must be 'inherit' or 'provider_default', not '"@
                        + text::trim(s) + "'"@,
                },
            )
        },
    }
}

pub fn parse_model_policy(raw: Option<&str>) -> (r: Result<ModelPolicy, Error>)
    ensures
        match (r, policy(raw.deep_view())) {
            (Ok(p), Ok(q)) => p == q,
            (Err(e), Err(f)) => e.says(f.code, f.message),
            _ => false,
        },
{
    let s = match raw {
        None => {
            return Ok(ModelPolicy::Inherit);
        },
        Some(s) => text::trim_of(s),
    };
    proof {
        reveal_strlit("inherit");
        reveal_strlit("provider_default");
    }
    if text::eq(s.as_str(), "inherit") {
        Ok(ModelPolicy::Inherit)
    } else if text::eq(s.as_str(), "provider_default") {
        Ok(ModelPolicy::ProviderDefault)
    } else {
        Err(
            Error::Invalid {
                code: "invalid_model_policy",
                message: "model_policy must be 'inherit' or 'provider_default', not '".to_owned().concat(
                    s.as_str(),
                ).concat("'"),
            },
        )
    }
}

/// Who a change is attributed to: the local user where nobody is named.
pub fn normalize_attribution(raw: Option<&str>) -> (r: Result<Attribution, Error>)
    ensures
        match raw {
            None => r is Ok && (r->Ok_0).actor@ == "local"@ && (r->Ok_0).transport@ == "local"@,
            Some(s) => {
                let actor = text::trim(s@);
                if actor.len() == 0 || vstd::utf8::encode_utf8(actor).len() > 160 || has_control(
                    actor,
                ) {
                    r is Err && (r->Err_0).says(
                        "invalid_request"@,
                        "attribution must be 1-160 characters without control characters"@,
                    )
                } else {
                    r is Ok && (r->Ok_0).actor@ == actor && (r->Ok_0).transport@ == "board"@
                }
            },
        },
{
    match raw {
        None => Ok(Attribution { actor: "local".to_owned(), transport: "local" }),
        Some(s) => {
            let actor = text::trim_of(s);
            if actor.as_str().unicode_len() == 0 || text::byte_len(actor.as_str()) > 160
                || any_control(actor.as_str()) {
                return Err(
                    Error::Invalid {
                        code: "invalid_request",
                        message: "attribution must be 1-160 characters without control characters".to_owned(),
                    },
                );
            }
            Ok(Attribution { actor, transport: "board" })
        },
    }
}

// ---------- checking a config ----------

/// What a selector comes to, and why it is refused.
pub open spec fn selector(s: SelectorView) -> (SelectorView, Option<Fault>) {
    match s {
        SelectorView::ProviderDefault => (s, None),
        SelectorView::Model(m) => match model_id(m) {
            Ok(id) => (SelectorView::Model(id), None),
            Err(f) => (s, Some(f)),
        },
    }
}

pub open spec fn config_fault(message: Seq<char>) -> Fault {
    Fault { code: "invalid_config"@, message }
}

/// What one role's selector comes to.
pub open spec fn role_entry(p: (Seq<char>, SelectorView)) -> (
    (Seq<char>, SelectorView),
    Option<Fault>,
) {
    if !canonical(p.0) {
        (p, Some(config_fault("unknown team role '"@ + p.0 + "' in model defaults"@)))
    } else {
        let (s, f) = selector(p.1);
        ((p.0, s), f)
    }
}

/// What the selectors of the roles come to, in order, up to the first that
/// is refused; those behind it are left as they are.
pub open spec fn role_entries(v: Seq<(Seq<char>, SelectorView)>) -> (
    Seq<(Seq<char>, SelectorView)>,
    Option<Fault>,
)
    decreases v.len(),
{
    if v.len() == 0 {
        (v, None)
    } else {
        let (head, fault) = role_entries(v.drop_last());
        match fault {
            Some(f) => (head.push(v.last()), fault),
            None => {
                let (last, f) = role_entry(v.last());
                (head.push(last), f)
            },
        }
    }
}

pub open spec fn provider_entry(
    p: (Seq<char>, ProviderView),
    eligible: Seq<Seq<char>>,
) -> ((Seq<char>, ProviderView), Option<Fault>) {
    if !eligible.contains(p.0) {
        (p, Some(config_fault("provider '"@ + p.0 + "' does not accept a model default"@)))
    } else {
        let (default, fault) = selector(p.1.default);
        match fault {
            Some(f) => (p, fault),
            None => {
                let (roles, f) = role_entries(p.1.roles);
                ((p.0, ProviderView { default, roles }), f)
            },
        }
    }
}

pub open spec fn provider_entries(
    v: Seq<(Seq<char>, ProviderView)>,
    eligible: Seq<Seq<char>>,
) -> (Seq<(Seq<char>, ProviderView)>, Option<Fault>)
    decreases v.len(),
{
    if v.len() == 0 {
        (v, None)
    } else {
        let (head, fault) = provider_entries(v.drop_last(), eligible);
        match fault {
            Some(f) => (head.push(v.last()), fault),
            None => {
                let (last, f) = provider_entry(v.last(), eligible);
                (head.push(last), f)
            },
        }
    }
}

/// What a config comes to under the providers that take a model default,
/// and why it is refused.
pub open spec fn checked(c: DefaultsView, eligible: Seq<Seq<char>>) -> (DefaultsView, Option<Fault>) {
    if c.schema != 1 {
        (c, Some(config_fault("model defaults schema must be 1"@)))
    } else {
        let (providers, f) = provider_entries(c.providers, eligible);
        (DefaultsView { providers, ..c }, f)
    }
}

/// The error, if there is one, is the fault, if there is one.
pub open spec fn told(e: Option<Error>, f: Option<Fault>) -> bool {
    match (e, f) {
        (Some(e), Some(f)) => e.says(f.code, f.message),
        (None, None) => true,
        _ => false,
    }
}

fn normalize_selector(s: ModelSelector) -> (r: (ModelSelector, Option<Error>))
    ensures
        r.0@ == selector(s@).0,
        told(r.1, selector(s@).1),
{
    match s {
        ModelSelector::ProviderDefault => (ModelSelector::ProviderDefault, None),
        ModelSelector::Model { model } => match validate_model_id(model.as_str()) {
            Ok(id) => (ModelSelector::Model { model: id }, None),
            Err(e) => (ModelSelector::Model { model }, Some(e)),
        },
    }
}

fn check_roles(v: Vec<(String, ModelSelector)>) -> (r: (Vec<(String, ModelSelector)>, Option<Error>))
    ensures
        dict::pairs(r.0@) == role_entries(dict::pairs(v@)).0,
        told(r.1, role_entries(dict::pairs(v@)).1),
{
    let ghost d = dict::pairs(v@);
    let ghost all = v@;
    let mut out: Vec<(String, ModelSelector)> = Vec::new();
    let mut fault: Option<Error> = None;
    assert(dict::pairs(out@) =~= d.take(0));
    for x in it: v
        invariant
            it.seq() == all,
            d == dict::pairs(all),
            dict::pairs(out@) == role_entries(d.take(it.index())).0,
            told(fault, role_entries(d.take(it.index())).1),
    {
        let ghost n = it.index();
        let ghost o = out@;
        proof {
            assert(d.take(n + 1).drop_last() =~= d.take(n));
            assert(d.take(n + 1).last() == (x.0@, x.1@));
        }
        let (role, s) = x;
        let s = if fault.is_some() {
            s
        } else if !canonical_team_role(role.as_str()) {
            fault = Some(
                Error::Invalid {
                    code: "invalid_config",
                    message: "unknown team role '".to_owned().concat(role.as_str()).concat(
                        "' in model defaults",
                    ),
                },
            );
            s
        } else {
            let (s, e) = normalize_selector(s);
            fault = e;
            s
        };
        let ghost y = (role@, s@);
        out.push((role, s));
        assert(dict::pairs(out@) =~= dict::pairs(o).push(y));
    }
    assert(d.take(d.len() as int) =~= d);
    (out, fault)
}

fn check_provider(name: &str, p: ProviderDefaults, eligible: &Vec<String>) -> (r: (
    ProviderDefaults,
    Option<Error>,
))
    ensures
        (name@, r.0@) == provider_entry((name@, p@), eligible.deep_view()).0,
        told(r.1, provider_entry((name@, p@), eligible.deep_view()).1),
{
    if !text::has_name(eligible, name) {
        return (
            p,
            Some(
                Error::Invalid {
                    code: "invalid_config",
                    message: "provider '".to_owned().concat(name).concat(
                        "' does not accept a model default",
                    ),
                },
            ),
        );
    }
    let (default, e) = normalize_selector(p.default);
    if e.is_some() {
        assert(default@ == p.default@);
        return (ProviderDefaults { default, roles: p.roles }, e);
    }
    let (roles, e) = check_roles(p.roles);
    (ProviderDefaults { default, roles }, e)
}

fn check_providers(v: Vec<(String, ProviderDefaults)>, eligible: &Vec<String>) -> (r: (
    Vec<(String, ProviderDefaults)>,
    Option<Error>,
))
    ensures
        dict::pairs(r.0@) == provider_entries(dict::pairs(v@), eligible.deep_view()).0,
        told(r.1, provider_entries(dict::pairs(v@), eligible.deep_view()).1),
{
    let ghost d = dict::pairs(v@);
    let ghost all = v@;
    let mut out: Vec<(String, ProviderDefaults)> = Vec::new();
    let mut fault: Option<Error> = None;
    assert(dict::pairs(out@) =~= d.take(0));
    for x in it: v
        invariant
            it.seq() == all,
            d == dict::pairs(all),
            dict::pairs(out@) == provider_entries(d.take(it.index()), eligible.deep_view()).0,
            told(fault, provider_entries(d.take(it.index()), eligible.deep_view()).1),
    {
        let ghost n = it.index();
        let ghost o = out@;
        proof {
            assert(d.take(n + 1).drop_last() =~= d.take(n));
            assert(d.take(n + 1).last() == (x.0@, x.1@));
        }
        let (name, p) = x;
        let p = if fault.is_some() {
            p
        } else {
            let (p, e) = check_provider(name.as_str(), p, eligible);
            fault = e;
            p
        };
        let ghost y = (name@, p@);
        out.push((name, p));
        assert(dict::pairs(out@) =~= dict::pairs(o).push(y));
    }
    assert(d.take(d.len() as int) =~= d);
    (out, fault)
}

/// Checks a config against the providers that take a model default, and
/// trims its model ids. Where it is refused, what stands before the fault
/// is trimmed already.
pub fn validate_config(config: &mut ModelDefaults, eligible: &Vec<String>) -> (r: Result<(), Error>)
    ensures
        final(config)@ == checked(old(config)@, eligible.deep_view()).0,
        match (r, checked(old(config)@, eligible.deep_view()).1) {
            (Ok(_), None) => true,
            (Err(e), Some(f)) => e.says(f.code, f.message),
            _ => false,
        },
        old(config)@.wf() ==> final(config)@.wf(),
{
    if config.schema != 1 {
        return Err(
            Error::Invalid {
                code: "invalid_config",
                message: "model defaults schema must be 1".to_owned(),
            },
        );
    }
    proof {
        checking_keeps_order(config@, eligible.deep_view());
    }
    let mut providers: Vec<(String, ProviderDefaults)> = Vec::new();
    std::mem::swap(&mut providers, &mut config.providers);
    let (providers, fault) = check_providers(providers, eligible);
    config.providers = providers;
    match fault {
        Some(e) => Err(e),
        None => Ok(()),
    }
}

proof fn roles_keep_keys(v: Seq<(Seq<char>, SelectorView)>)
    ensures
        dict::keys(role_entries(v).0) == dict::keys(v),
    decreases v.len(),
{
    if v.len() > 0 {
        roles_keep_keys(v.drop_last());
        let head = role_entries(v.drop_last()).0;
        assert(dict::keys(role_entries(v).0) =~= dict::keys(head).push(v.last().0));
        assert(dict::keys(v) =~= dict::keys(v.drop_last()).push(v.last().0));
    }
}

/// Checking keeps every provider and role where it is.
proof fn providers_keep_order(v: Seq<(Seq<char>, ProviderView)>, eligible: Seq<Seq<char>>)
    ensures
        dict::keys(provider_entries(v, eligible).0) == dict::keys(v),
        forall|i: int|
            0 <= i < v.len() ==> dict::keys((#[trigger] provider_entries(v, eligible).0[i]).1.roles)
                == dict::keys(v[i].1.roles),
    decreases v.len(),
{
    if v.len() > 0 {
        let rest = v.drop_last();
        providers_keep_order(rest, eligible);
        let head = provider_entries(rest, eligible).0;
        let out = provider_entries(v, eligible).0;
        roles_keep_keys(v.last().1.roles);
        assert(dict::keys(head).len() == dict::keys(rest).len());
        assert(dict::keys(out) =~= dict::keys(head).push(v.last().0));
        assert(dict::keys(v) =~= dict::keys(rest).push(v.last().0));
        assert forall|i: int| 0 <= i < v.len() implies dict::keys((#[trigger] out[i]).1.roles)
            == dict::keys(v[i].1.roles) by {
            if i < rest.len() {
                assert(out[i] == head[i]);
                assert(v[i] == rest[i]);
            }
        }
    }
}

proof fn checking_keeps_order(c: DefaultsView, eligible: Seq<Seq<char>>)
    ensures
        c.wf() ==> checked(c, eligible).0.wf(),
{
    if c.wf() && c.schema == 1 {
        let out = provider_entries(c.providers, eligible).0;
        providers_keep_order(c.providers, eligible);
        assert(dict::keys(out).len() == dict::keys(c.providers).len());
        assert forall|i: int| 0 <= i < out.len() implies dict::ordered(
            (#[trigger] out[i]).1.roles,
        ) by {
            assert(dict::ordered(c.providers[i].1.roles));
        }
    }
}

// ---------- laws ----------

/// Trimming what is trimmed changes nothing.
proof fn trim_twice(s: Seq<char>)
    ensures
        text::trim(text::trim(s)) == text::trim(s),
{
    let a = text::trim_start(s);
    let b = text::trim_end(a);
    start_fixed(s);
    end_fixed(a);
    if b.len() > 0 {
        assert(b[0] == a[0]);
        assert(text::trim_start(b) == b);
    }
    assert(text::trim_start(b) == b);
}

proof fn start_fixed(s: Seq<char>)
    ensures
        text::trim_start(s).len() > 0 ==> !text::white(text::trim_start(s)[0]),
    decreases s.len(),
{
    if s.len() > 0 && text::white(s[0]) {
        start_fixed(s.drop_first());
    }
}

proof fn end_fixed(s: Seq<char>)
    ensures
        text::trim_end(s).len() > 0 ==> !text::white(text::trim_end(s).last()) && s.len() > 0
            && text::trim_end(s)[0] == s[0],
        text::trim_end(text::trim_end(s)) == text::trim_end(s),
    decreases s.len(),
{
    if s.len() > 0 && text::white(s.last()) {
        end_fixed(s.drop_last());
    }
}

/// An accepted model id is accepted again, as it is.
pub proof fn a_model_id_is_settled(raw: Seq<char>)
    requires
        model_id(raw) is Ok,
    ensures
        model_id(model_id(raw)->Ok_0) == Ok::<Seq<char>, Fault>(model_id(raw)->Ok_0),
{
    trim_twice(raw);
}

proof fn roles_settled(v: Seq<(Seq<char>, SelectorView)>)
    requires
        role_entries(v).1 is None,
    ensures
        role_entries(role_entries(v).0) == (role_entries(v).0, None::<Fault>),
    decreases v.len(),
{
    if v.len() > 0 {
        roles_settled(v.drop_last());
        let out = role_entries(v).0;
        assert(out.drop_last() =~= role_entries(v.drop_last()).0);
        if let SelectorView::Model(m) = v.last().1 {
            a_model_id_is_settled(m);
        }
        assert(out.last() == role_entry(v.last()).0);
        assert(role_entry(out.last()) == (out.last(), None::<Fault>));
        assert(out.drop_last().push(out.last()) =~= out);
    }
}

proof fn providers_settled(v: Seq<(Seq<char>, ProviderView)>, eligible: Seq<Seq<char>>)
    requires
        provider_entries(v, eligible).1 is None,
    ensures
        provider_entries(provider_entries(v, eligible).0, eligible) == (
            provider_entries(v, eligible).0,
            None::<Fault>,
        ),
    decreases v.len(),
{
    if v.len() > 0 {
        providers_settled(v.drop_last(), eligible);
        let out = provider_entries(v, eligible).0;
        assert(out.drop_last() =~= provider_entries(v.drop_last(), eligible).0);
        let p = v.last();
        if let SelectorView::Model(m) = p.1.default {
            a_model_id_is_settled(m);
        }
        roles_settled(p.1.roles);
        assert(out.last() == provider_entry(p, eligible).0);
        assert(provider_entry(out.last(), eligible) == (out.last(), None::<Fault>));
        assert(out.drop_last().push(out.last()) =~= out);
    }
}

/// A config that was accepted is accepted again, and stays as it is.
pub proof fn an_accepted_config_is_settled(c: DefaultsView, eligible: Seq<Seq<char>>)
    requires
        checked(c, eligible).1 is None,
    ensures
        checked(checked(c, eligible).0, eligible) == (checked(c, eligible).0, None::<Fault>),
{
    providers_settled(c.providers, eligible);
}

/// A launch may write `ops` for `devops`; what is stored is always one of
/// the team roles.
pub proof fn a_stored_role_is_canonical(raw: Seq<char>)
    requires
        team_role(raw) is Ok,
    ensures
        canonical(team_role(raw)->Ok_0),
        team_role(raw)->Ok_0 != "ops"@,
{
    reveal_strlit("ops");
    reveal_strlit("devops");
    assert("devops"@.len() == 6 && "ops"@.len() == 3);
}

} // verus!
