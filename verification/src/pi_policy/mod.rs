//! The operator's policy for Pi: the models its agents may launch on, and
//! the extension packages that may load. Pi falls back silently, to
//! another provider's model or to whatever extension is installed; under
//! the policy nothing does. Without a policy nothing launches.
pub mod laws;
pub mod package;

use crate::error::Error;
use crate::model_defaults;
use crate::model_defaults::validate_model_id;
use crate::pi_policy::package::parse_package_pin;
use crate::text;
use vstd::prelude::*;

verus! {

/// The `pi` table of the project file.
#[derive(Debug, Clone)]
pub struct PiPolicy {
    /// The packages that may load, each pinned as `name@version`.
    pub providers: Vec<String>,
    pub models: PiModels,
}

/// The models that may run, and the one that each role falls back to.
#[derive(Debug, Clone)]
pub struct PiModels {
    /// The list of a role that has none of its own.
    pub allow: Vec<String>,
    /// The master's own list. It replaces `allow`, even where it is empty.
    pub master_allow: Option<Vec<String>>,
    /// The list of every other role.
    pub worker_allow: Option<Vec<String>>,
    pub default: PiRoleDefaults,
}

#[derive(Debug, Clone)]
pub struct PiRoleDefaults {
    pub master: Option<String>,
    pub worker: Option<String>,
}

pub open spec fn list(v: Option<Vec<String>>) -> Option<Seq<Seq<char>>> {
    match v {
        Some(v) => Some(v.deep_view()),
        None => None,
    }
}

pub struct ModelsView {
    pub allow: Seq<Seq<char>>,
    pub master_allow: Option<Seq<Seq<char>>>,
    pub worker_allow: Option<Seq<Seq<char>>>,
    pub master: Option<Seq<char>>,
    pub worker: Option<Seq<char>>,
}

impl View for PiModels {
    type V = ModelsView;

    open spec fn view(&self) -> ModelsView {
        ModelsView {
            allow: self.allow.deep_view(),
            master_allow: list(self.master_allow),
            worker_allow: list(self.worker_allow),
            master: self.default.master.deep_view(),
            worker: self.default.worker.deep_view(),
        }
    }
}

impl ModelsView {
    /// The list of a role of its own, where the table has one. Every role
    /// but the master's is a worker's.
    pub open spec fn own_list(self, role: Seq<char>) -> Option<Seq<Seq<char>>> {
        if role == "master"@ {
            self.master_allow
        } else {
            self.worker_allow
        }
    }

    /// The list that a role launches under.
    pub open spec fn allowed(self, role: Seq<char>) -> Seq<Seq<char>> {
        match self.own_list(role) {
            Some(v) => v,
            None => self.allow,
        }
    }

    /// The key of that list.
    pub open spec fn key(self, role: Seq<char>) -> Seq<char> {
        match self.own_list(role) {
            Some(v) => if role == "master"@ {
                "master_allow"@
            } else {
                "worker_allow"@
            },
            None => "allow"@,
        }
    }

    pub open spec fn fallback(self, role: Seq<char>) -> Option<Seq<char>> {
        if role == "master"@ {
            self.master
        } else {
            self.worker
        }
    }
}

impl PiModels {
    /// The list that a role launches under: its own where there is one.
    pub fn allow_for(&self, role: &str) -> (r: &Vec<String>)
        ensures
            r.deep_view() == self@.allowed(role@),
    {
        let own = if text::eq(role, "master") {
            &self.master_allow
        } else {
            &self.worker_allow
        };
        match own {
            Some(v) => v,
            None => &self.allow,
        }
    }

    /// The key of that list, which a refusal names.
    pub fn allow_key(&self, role: &str) -> (r: &'static str)
        ensures
            r@ == self@.key(role@),
    {
        if text::eq(role, "master") {
            match &self.master_allow {
                Some(_) => "master_allow",
                None => "allow",
            }
        } else {
            match &self.worker_allow {
                Some(_) => "worker_allow",
                None => "allow",
            }
        }
    }
}

impl PiRoleDefaults {
    /// The model that a role falls back to.
    pub fn for_role(&self, role: &str) -> (r: Option<&str>)
        ensures
            r.deep_view() == (if role@ == "master"@ {
                self.master.deep_view()
            } else {
                self.worker.deep_view()
            }),
    {
        if text::eq(role, "master") {
            text::opt_str(&self.master)
        } else {
            text::opt_str(&self.worker)
        }
    }
}

// ---------- launching ----------

/// Why a model may not launch; nothing where it may.
pub open spec fn refusal(
    models: Option<ModelsView>,
    role: Seq<char>,
    model: Seq<char>,
) -> Option<Seq<char>> {
    let key = match models {
        Some(m) => m.key(role),
        None => "allow"@,
    };
    let allowed = match models {
        Some(m) => m.allowed(role),
        None => seq![],
    };
    if allowed.contains(model) {
        None
    } else {
        let listed = if allowed.len() == 0 {
            "nothing — pm.yaml has no [pi].models."@ + key + " entries"@
        } else {
            text::join(allowed, ", "@)
        };
        Some(
            "pi "@ + role + " model '"@ + model
                + "' is not on the operator's allowlist (allowed: "@ + listed
                + ") — the operator pins the pi model set in pm.yaml [pi].models."@ + key
                + " (CAD-559, CAD-575)"@,
        )
    }
}

pub open spec fn models_of(policy: Option<&PiPolicy>) -> Option<ModelsView> {
    match policy {
        Some(p) => Some(p.models@),
        None => None,
    }
}

/// A model may launch only where it is on the list of its role; without a
/// policy none may.
pub fn require_allowed(policy: Option<&PiPolicy>, role: &str, model: &str) -> (r: Result<(), Error>)
    ensures
        match (r, refusal(models_of(policy), role@, model@)) {
            (Ok(_), None) => true,
            (Err(e), Some(why)) => e is Rejected && e.text() == why,
            _ => false,
        },
{
    let none: Vec<String> = Vec::new();
    assert(none.deep_view() =~= seq![]);
    let (key, allowed) = match policy {
        Some(p) => (p.models.allow_key(role), p.models.allow_for(role)),
        None => ("allow", &none),
    };
    if text::has_name(allowed, model) {
        return Ok(());
    }
    let listed = if allowed.len() == 0 {
        "nothing — pm.yaml has no [pi].models.".to_owned().concat(key).concat(" entries")
    } else {
        text::join_of(allowed, ", ")
    };
    Err(
        Error::Rejected(
            "pi ".to_owned().concat(role).concat(" model '").concat(model).concat(
                "' is not on the operator's allowlist (allowed: ",
            ).concat(listed.as_str()).concat(
                ") — the operator pins the pi model set in pm.yaml [pi].models.",
            ).concat(key).concat(" (CAD-559, CAD-575)"),
        ),
    )
}

/// The model that an agent launches with, or why none may.
pub open spec fn launch(
    models: Option<ModelsView>,
    role: Seq<char>,
    explicit: Option<Seq<char>>,
) -> Result<Seq<char>, Seq<char>> {
    let wanted = match (explicit, models) {
        (Some(m), _) => Some(m),
        (None, Some(v)) => v.fallback(role),
        (None, None) => None,
    };
    match wanted {
        None => Err(
            "a pi "@ + role
                + " has no model — pass --model <provider/id> or set pi.models.default."@ + role
                + " in pm.yaml; pi's own provider fallback is never used (CAD-559)"@,
        ),
        Some(m) => match refusal(models, role, m) {
            Some(why) => Err(why),
            None => Ok(m),
        },
    }
}

/// The model that an agent of a role launches with: the explicit one, else
/// the role's fallback, and never what Pi would pick. It must be allowed.
pub fn resolve_model(policy: Option<&PiPolicy>, role: &str, explicit: Option<&str>) -> (r: Result<
    String,
    Error,
>)
    ensures
        match (r, launch(models_of(policy), role@, explicit.deep_view())) {
            (Ok(m), Ok(n)) => m@ == n,
            (Err(e), Err(why)) => e is Rejected && e.text() == why,
            _ => false,
        },
{
    let wanted = match explicit {
        Some(m) => Some(m),
        None => match policy {
            Some(p) => p.models.default.for_role(role),
            None => None,
        },
    };
    match wanted {
        None => Err(
            Error::Rejected(
                "a pi ".to_owned().concat(role).concat(
                    " has no model — pass --model <provider/id> or set pi.models.default.",
                ).concat(role).concat(
                    " in pm.yaml; pi's own provider fallback is never used (CAD-559)",
                ),
            ),
        ),
        Some(m) => match require_allowed(policy, role, m) {
            Ok(_) => Ok(m.to_owned()),
            Err(e) => Err(e),
        },
    }
}

// ---------- reading the table ----------

/// Why a model of the table is refused. The lists match exactly, so one
/// that needs a trim would never match.
pub open spec fn model_fault(model: Seq<char>) -> Option<Seq<char>> {
    if text::trim(model) != model {
        Some("model ids must not be padded with whitespace"@)
    } else {
        match model_defaults::model_id(model) {
            Ok(_) => None,
            Err(f) => Some(f.message),
        }
    }
}

fn check_model_id(model: &str) -> (r: Option<String>)
    ensures
        r.deep_view() == model_fault(model@),
{
    if !text::eq(text::trim_of(model).as_str(), model) {
        return Some("model ids must not be padded with whitespace".to_owned());
    }
    match validate_model_id(model) {
        Ok(_) => None,
        Err(e) => Some(e.message().to_owned()),
    }
}

/// What is wrong with the first bad model of a list.
pub open spec fn models_fault(v: Seq<Seq<char>>) -> Option<Seq<char>>
    decreases v.len(),
{
    if v.len() == 0 {
        None
    } else {
        match model_fault(v[0]) {
            Some(why) => Some("pm.yaml [pi] model '"@ + v[0] + "': "@ + why),
            None => models_fault(v.drop_first()),
        }
    }
}

fn check_models(v: &Vec<String>) -> (r: Option<String>)
    ensures
        r.deep_view() == models_fault(v.deep_view()),
{
    let ghost d = v.deep_view();
    let mut i: usize = 0;
    assert(d.skip(0) =~= d);
    while i < v.len()
        invariant
            d == v.deep_view(),
            i <= v@.len(),
            models_fault(d) == models_fault(d.skip(i as int)),
        decreases v.len() - i,
    {
        assert(d.skip(i as int)[0] == v@[i as int]@);
        assert(d.skip(i as int).drop_first() =~= d.skip(i + 1));
        if let Some(why) = check_model_id(v[i].as_str()) {
            return Some(
                "pm.yaml [pi] model '".to_owned().concat(v[i].as_str()).concat("': ").concat(
                    why.as_str(),
                ),
            );
        }
        i = i + 1;
    }
    None
}

/// What is wrong with the first bad pin of a list.
pub open spec fn pins_fault(v: Seq<Seq<char>>) -> Option<Seq<char>>
    decreases v.len(),
{
    if v.len() == 0 {
        None
    } else {
        match package::pin(v[0]) {
            Err(why) => Some("pm.yaml [pi].providers '"@ + v[0] + "': "@ + why),
            Ok(_) => pins_fault(v.drop_first()),
        }
    }
}

fn check_pins(v: &Vec<String>) -> (r: Option<String>)
    ensures
        r.deep_view() == pins_fault(v.deep_view()),
{
    let ghost d = v.deep_view();
    let mut i: usize = 0;
    assert(d.skip(0) =~= d);
    while i < v.len()
        invariant
            d == v.deep_view(),
            i <= v@.len(),
            pins_fault(d) == pins_fault(d.skip(i as int)),
        decreases v.len() - i,
    {
        assert(d.skip(i as int)[0] == v@[i as int]@);
        assert(d.skip(i as int).drop_first() =~= d.skip(i + 1));
        if let Err(e) = parse_package_pin(v[i].as_str()) {
            return Some(
                "pm.yaml [pi].providers '".to_owned().concat(v[i].as_str()).concat("': ").concat(
                    e.message(),
                ),
            );
        }
        i = i + 1;
    }
    None
}

pub open spec fn opt_list(v: Option<Seq<Seq<char>>>) -> Seq<Seq<char>> {
    match v {
        Some(v) => v,
        None => seq![],
    }
}

pub open spec fn opt_one(s: Option<Seq<char>>) -> Seq<Seq<char>> {
    match s {
        Some(s) => seq![s],
        None => seq![],
    }
}

/// The first of two faults.
pub open spec fn first(a: Option<Seq<char>>, b: Option<Seq<char>>) -> Option<Seq<char>> {
    match a {
        Some(_) => a,
        None => b,
    }
}

/// What is wrong with a table, the first fault in the order of its keys.
pub open spec fn table_fault(m: ModelsView, providers: Seq<Seq<char>>) -> Option<Seq<char>> {
    first(
        models_fault(m.allow),
        first(
            models_fault(opt_list(m.master_allow)),
            first(
                models_fault(opt_list(m.worker_allow)),
                first(
                    models_fault(opt_one(m.master)),
                    first(models_fault(opt_one(m.worker)), pins_fault(providers)),
                ),
            ),
        ),
    )
}

fn check_opt_models(v: &Option<Vec<String>>) -> (r: Option<String>)
    ensures
        r.deep_view() == models_fault(opt_list(list(*v))),
{
    match v {
        Some(v) => check_models(v),
        None => None,
    }
}

fn check_opt_model(s: &Option<String>) -> (r: Option<String>)
    ensures
        r.deep_view() == models_fault(opt_one(s.deep_view())),
{
    match s {
        Some(m) => {
            let one = vec![m.clone()];
            assert(one.deep_view() =~= seq![m@]);
            check_models(&one)
        },
        None => None,
    }
}

impl PiPolicy {
    /// Checks every entry: a bad id or pin is an error of the table, which
    /// is fixed once, and no miss at a launch.
    pub fn validate(&self) -> (r: Result<(), Error>)
        ensures
            match (r, table_fault(self.models@, self.providers.deep_view())) {
                (Ok(_), None) => true,
                (Err(e), Some(why)) => e is Rejected && e.text() == why,
                _ => false,
            },
    {
        if let Some(why) = check_models(&self.models.allow) {
            return Err(Error::Rejected(why));
        }
        if let Some(why) = check_opt_models(&self.models.master_allow) {
            return Err(Error::Rejected(why));
        }
        if let Some(why) = check_opt_models(&self.models.worker_allow) {
            return Err(Error::Rejected(why));
        }
        if let Some(why) = check_opt_model(&self.models.default.master) {
            return Err(Error::Rejected(why));
        }
        if let Some(why) = check_opt_model(&self.models.default.worker) {
            return Err(Error::Rejected(why));
        }
        if let Some(why) = check_pins(&self.providers) {
            return Err(Error::Rejected(why));
        }
        Ok(())
    }
}

/// The first key that breaks a table by itself.
pub open spec fn first_broken(tries: Seq<(Seq<char>, bool)>) -> Option<Seq<char>>
    decreases tries.len(),
{
    if tries.len() == 0 {
        None
    } else if tries[0].1 {
        Some(tries[0].0)
    } else {
        first_broken(tries.drop_first())
    }
}

pub open spec fn try_views(v: Seq<(String, bool)>) -> Seq<(Seq<char>, bool)> {
    v.map_values(|t: (String, bool)| (t.0@, t.1))
}

/// The key to name for a table that does not have its shape: the first
/// whose table of one key fails too. A try is a key and whether it failed.
pub fn culprit(tries: &Vec<(String, bool)>) -> (r: Option<String>)
    ensures
        r.deep_view() == first_broken(try_views(tries@)),
{
    let ghost d = try_views(tries@);
    let mut i: usize = 0;
    assert(d.skip(0) =~= d);
    while i < tries.len()
        invariant
            d == try_views(tries@),
            i <= tries@.len(),
            first_broken(d) == first_broken(d.skip(i as int)),
        decreases tries.len() - i,
    {
        assert(d.skip(i as int)[0] == d[i as int]);
        assert(d.skip(i as int).drop_first() =~= d.skip(i + 1));
        if tries[i].1 {
            return Some(tries[i].0.clone());
        }
        i = i + 1;
    }
    None
}

/// What reading the project file found.
#[derive(Debug, Clone)]
pub enum Found {
    /// No file, or no `pi` table in it.
    Nothing,
    /// The file is no YAML.
    BadFile(String),
    /// The table does not have its shape; the key that breaks it, where
    /// one does.
    BadTable { culprit: Option<String>, why: String },
    Table(PiPolicy),
}

/// The policy of what was found: a table that is there and cannot be used
/// is an error, never a silent default.
pub fn read(found: Found) -> (r: Result<Option<PiPolicy>, Error>)
    ensures
        match found {
            Found::Nothing => r is Ok && (r->Ok_0) is None,
            Found::BadFile(why) => r is Err && (r->Err_0) is Rejected && (r->Err_0).text()
                == "pm.yaml is not valid YAML: "@ + why@,
            Found::BadTable { culprit, why } => r is Err && (r->Err_0) is Rejected && (
            r->Err_0).text() == (match culprit {
                Some(k) => "pm.yaml [pi] "@ + k@ + ": "@ + why@,
                None => "pm.yaml [pi]: "@ + why@,
            }),
            Found::Table(p) => match table_fault(p.models@, p.providers.deep_view()) {
                Some(why) => r is Err && (r->Err_0) is Rejected && (r->Err_0).text() == why,
                None => r is Ok && (r->Ok_0) == Some(p),
            },
        },
{
    match found {
        Found::Nothing => Ok(None),
        Found::BadFile(why) => Err(
            Error::Rejected("pm.yaml is not valid YAML: ".to_owned().concat(why.as_str())),
        ),
        Found::BadTable { culprit, why } => match culprit {
            Some(k) => Err(
                Error::Rejected(
                    "pm.yaml [pi] ".to_owned().concat(k.as_str()).concat(": ").concat(why.as_str()),
                ),
            ),
            None => Err(Error::Rejected("pm.yaml [pi]: ".to_owned().concat(why.as_str()))),
        },
        Found::Table(p) => match p.validate() {
            Ok(_) => Ok(Some(p)),
            Err(e) => Err(e),
        },
    }
}

// ---------- laws ----------

/// A list of a role's own replaces the common one, even where it is empty.
pub proof fn an_own_list_replaces_the_common_one(
    m: ModelsView,
    role: Seq<char>,
    model: Seq<char>,
)
    requires
        m.own_list(role) is Some,
    ensures
        refusal(Some(m), role, model) is None <==> (m.own_list(role)->0).contains(model),
        (m.own_list(role)->0).len() == 0 ==> refusal(Some(m), role, model) is Some,
{
}

/// The list of one role never decides for another.
pub proof fn lists_do_not_leak(a: ModelsView, b: ModelsView, role: Seq<char>, model: Seq<char>)
    requires
        a.allow == b.allow,
        a.own_list(role) == b.own_list(role),
    ensures
        refusal(Some(a), role, model) is None <==> refusal(Some(b), role, model) is None,
{
}

/// Whatever launches is on the list of its role.
pub proof fn every_launch_is_allowed(
    models: Option<ModelsView>,
    role: Seq<char>,
    explicit: Option<Seq<char>>,
)
    requires
        launch(models, role, explicit) is Ok,
    ensures
        models is Some,
        (models->0).allowed(role).contains(launch(models, role, explicit)->Ok_0),
        explicit is Some ==> launch(models, role, explicit)->Ok_0 == explicit->0,
        explicit is None ==> (models->0).fallback(role) == Some(
            launch(models, role, explicit)->Ok_0,
        ),
{
}

/// Without a policy nothing launches.
pub proof fn no_policy_launches_nothing(role: Seq<char>, explicit: Option<Seq<char>>)
    ensures
        launch(None, role, explicit) is Err,
{
}

} // verus!
