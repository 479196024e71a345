//! The settings document: how a body is read, and how a config is shown.
use crate::dict;
use crate::error::Error;
use crate::json;
use crate::json::{object_of, put_member, Json, JsonView, Member, MemberView};
use crate::model_defaults;
use crate::model_defaults::scan;
use crate::model_defaults::scan::{Capture, CaptureView, Fault};
use crate::model_defaults::{validate_config, DefaultsView, ModelDefaults, ModelSelector, ProviderDefaults, ProviderView, SelectorView, SettingsWrite, MAX_CONFIG_BYTES, MAX_HTTP_BODY_BYTES};
use crate::text;
use vstd::prelude::*;

verus! {

pub open spec fn request_fault(message: Seq<char>) -> Fault {
    Fault { code: "invalid_request"@, message }
}

fn bad_request(message: &str) -> (e: Error)
    ensures
        e.says("invalid_request"@, message@),
{
    Error::Invalid { code: "invalid_request", message: message.to_owned() }
}

pub open spec fn all_digits(s: Seq<char>) -> bool {
    forall|i: int| 0 <= i < s.len() ==> scan::decimal(#[trigger] s[i])
}

/// The revision that a text writes: decimal digits without a leading zero,
/// within the range that is stored.
pub open spec fn revision(lexeme: Seq<char>) -> Result<i64, Fault> {
    let bad = Err::<i64, Fault>(
        request_fault("expected_revision must be a nonnegative integer"@),
    );
    if lexeme.len() == 0 || !all_digits(lexeme) || (lexeme.len() > 1 && lexeme[0] == '0') {
        bad
    } else {
        match text::unsigned_upto(lexeme, 10, u64::MAX as nat) {
            None => bad,
            Some(n) => if n > i64::MAX {
                Err(request_fault("expected_revision is outside the stored integer range"@))
            } else {
                Ok(n as i64)
            },
        }
    }
}

fn are_digits(s: &str) -> (r: bool)
    ensures
        r == all_digits(s@),
{
    let v = text::chars_of(s);
    let mut i: usize = 0;
    while i < v.len()
        invariant
            v@ == s@,
            i <= v@.len(),
            forall|k: int| 0 <= k < i ==> scan::decimal(#[trigger] s@[k]),
        decreases v.len() - i,
    {
        if !('0' <= v[i] && v[i] <= '9') {
            assert(!scan::decimal(s@[i as int]));
            return false;
        }
        i = i + 1;
    }
    true
}

fn revision_from_lexeme(lexeme: &str) -> (r: Result<i64, Error>)
    ensures
        match (r, revision(lexeme@)) {
            (Ok(n), Ok(m)) => n == m,
            (Err(e), Err(f)) => e.says(f.code, f.message),
            _ => false,
        },
{
    if lexeme.unicode_len() == 0 || !are_digits(lexeme) {
        return Err(bad_request("expected_revision must be a nonnegative integer"));
    }
    if lexeme.unicode_len() > 1 && lexeme.get_char(0) == '0' {
        return Err(bad_request("expected_revision must be a nonnegative integer"));
    }
    match text::parse_unsigned(lexeme, 10, u64::MAX) {
        None => Err(bad_request("expected_revision must be a nonnegative integer")),
        Some(n) => if n > i64::MAX as u64 {
            Err(bad_request("expected_revision is outside the stored integer range"))
        } else {
            Ok(n as i64)
        },
    }
}

/// What the walk over a settings body comes to: the revision it is to
/// replace. Sizes are checked first, then every key of every object, then
/// the two fields.
pub open spec fn scanned(raw: Seq<char>) -> Result<i64, Fault> {
    let k = scan::blanks(raw, 0) as int;
    if vstd::utf8::encode_utf8(raw).len() > MAX_HTTP_BODY_BYTES {
        Err(request_fault("settings body exceeds 20480 bytes"@))
    } else if k >= raw.len() {
        Err(scan::cut_short())
    } else if raw[k] != '{' {
        Err(request_fault("settings body must be a JSON object"@))
    } else {
        match scan::object(raw, k, 0, Some(CaptureView { revision: None, config_len: None })) {
            Err(f) => Err(f),
            Ok((n, cap)) => {
                let end = k + n;
                if end + scan::blanks(raw, end) != raw.len() {
                    Err(request_fault("trailing data after settings JSON"@))
                } else {
                    fields(cap)
                }
            },
        }
    }
}

/// What the two fields of a settings body come to.
pub open spec fn fields(cap: Option<CaptureView>) -> Result<i64, Fault> {
    match cap {
        Some(c) => match (c.revision, c.config_len) {
            (None, _) => Err(request_fault("settings body requires expected_revision"@)),
            (Some(lexeme), None) => Err(request_fault("settings body requires config"@)),
            (Some(lexeme), Some(n)) => if n > MAX_CONFIG_BYTES {
                Err(
                    model_defaults::config_fault("model defaults document exceeds 16384 bytes"@),
                )
            } else {
                revision(lexeme)
            },
        },
        None => Err(request_fault("settings body requires expected_revision"@)),
    }
}

fn read_fields(cap: Option<Capture>) -> (r: Result<i64, Error>)
    ensures
        match (r, fields(scan::cut(cap))) {
            (Ok(n), Ok(m)) => n == m,
            (Err(e), Err(f)) => e.says(f.code, f.message),
            _ => false,
        },
{
    let cap = match cap {
        Some(c) => c,
        None => {
            return Err(bad_request("settings body requires expected_revision"));
        },
    };
    let lexeme = match cap.revision {
        Some(s) => s,
        None => {
            return Err(bad_request("settings body requires expected_revision"));
        },
    };
    match cap.config_len {
        None => Err(bad_request("settings body requires config")),
        Some(n) => if n > MAX_CONFIG_BYTES {
            Err(
                Error::Invalid {
                    code: "invalid_config",
                    message: "model defaults document exceeds 16384 bytes".to_owned(),
                },
            )
        } else {
            revision_from_lexeme(lexeme.as_str())
        },
    }
}

/// Walks over a settings body: the revision it is to replace.
pub fn scan_settings(raw: &str) -> (r: Result<i64, Error>)
    ensures
        match (r, scanned(raw@)) {
            (Ok(n), Ok(m)) => n == m,
            (Err(e), Err(f)) => e.says(f.code, f.message),
            _ => false,
        },
{
    if text::byte_len(raw) > MAX_HTTP_BODY_BYTES {
        return Err(bad_request("settings body exceeds 20480 bytes"));
    }
    let b = text::chars_of(raw);
    let k = scan::skip_blanks(&b, 0);
    if k >= b.len() {
        return Err(scan::fault_cut_short());
    }
    if b[k] != '{' {
        return Err(bad_request("settings body must be a JSON object"));
    }
    let none = Some(Capture { revision: None, config_len: None });
    match scan::read_object(&b, k, 0, none) {
        Err(e) => Err(e),
        Ok((end, cap)) => {
            if scan::skip_blanks(&b, end) != b.len() {
                return Err(bad_request("trailing data after settings JSON"));
            }
            read_fields(cap)
        },
    }
}

// ---------- reading a config ----------

/// The two values of a record that holds exactly the fields `a` and `b`,
/// as an object or as the two values in order.
pub open spec fn two(j: JsonView, a: Seq<char>, b: Seq<char>) -> Option<(JsonView, JsonView)> {
    match j {
        JsonView::Obj(m) => match (json::entry(m, a), json::entry(m, b)) {
            (Some(x), Some(y)) => if only(m, a, b) {
                Some((x, y))
            } else {
                None
            },
            _ => None,
        },
        JsonView::Arr(v) => if v.len() == 2 {
            Some((v[0], v[1]))
        } else {
            None
        },
        _ => None,
    }
}

/// No entry has another key than `a` or `b`.
pub open spec fn only(m: Seq<MemberView>, a: Seq<char>, b: Seq<char>) -> bool {
    forall|i: int| 0 <= i < m.len() ==> (#[trigger] m[i]).key == a || m[i].key == b
}

/// The selector that a value writes. One that names the provider default
/// may hold more; one that names a model may not.
pub open spec fn read_selector(j: JsonView) -> Option<SelectorView> {
    match j {
        JsonView::Obj(m) => match json::string(json::entry(m, "mode"@)) {
            Some(mode) => if mode == "provider_default"@ {
                Some(SelectorView::ProviderDefault)
            } else if mode == "model"@ && only(m, "mode"@, "model"@) {
                match json::string(json::entry(m, "model"@)) {
                    Some(s) => Some(SelectorView::Model(s)),
                    None => None,
                }
            } else {
                None
            },
            None => None,
        },
        JsonView::Arr(v) => if v.len() == 1 && v[0] == JsonView::Str("provider_default"@) {
            Some(SelectorView::ProviderDefault)
        } else if v.len() == 2 && v[0] == JsonView::Str("model"@) && v[1] is Str {
            Some(SelectorView::Model(v[1]->Str_0))
        } else {
            None
        },
        _ => None,
    }
}

/// The roles that the entries of an object write.
pub open spec fn read_roles(m: Seq<MemberView>) -> Result<
    Seq<(Seq<char>, SelectorView)>,
    Seq<char>,
>
    decreases m.len(),
{
    if m.len() == 0 {
        Ok(seq![])
    } else {
        match read_roles(m.drop_last()) {
            Err(e) => Err(e),
            Ok(v) => match read_selector(m.last().value) {
                Some(s) => Ok(dict::put(v, m.last().key, s)),
                None => Err("role '"@ + m.last().key + "' must name a model or the provider default"@),
            },
        }
    }
}

pub open spec fn read_provider(name: Seq<char>, j: JsonView) -> Result<ProviderView, Seq<char>> {
    match two(j, "default"@, "roles"@) {
        None => Err("provider '"@ + name + "' must hold default and roles, and nothing else"@),
        Some((d, r)) => match (read_selector(d), r) {
            (None, _) => Err(
                "the default of provider '"@ + name
                    + "' must name a model or the provider default"@,
            ),
            (Some(default), JsonView::Obj(m)) => match read_roles(m) {
                Err(e) => Err(e),
                Ok(roles) => Ok(ProviderView { default, roles }),
            },
            _ => Err("the roles of provider '"@ + name + "' must be an object"@),
        },
    }
}

pub open spec fn read_providers(m: Seq<MemberView>) -> Result<
    Seq<(Seq<char>, ProviderView)>,
    Seq<char>,
>
    decreases m.len(),
{
    if m.len() == 0 {
        Ok(seq![])
    } else {
        match read_providers(m.drop_last()) {
            Err(e) => Err(e),
            Ok(v) => match read_provider(m.last().key, m.last().value) {
                Err(e) => Err(e),
                Ok(p) => Ok(dict::put(v, m.last().key, p)),
            },
        }
    }
}

/// The config that a value writes, or what is wrong with its shape.
pub open spec fn read_defaults(j: JsonView) -> Result<DefaultsView, Seq<char>> {
    match two(j, "schema"@, "providers"@) {
        None => Err("it must hold schema and providers, and nothing else"@),
        Some((s, p)) => match (json::whole(s), p) {
            (Some(n), JsonView::Obj(m)) => if n > u32::MAX {
                Err("schema must be a small integer"@)
            } else {
                match read_providers(m) {
                    Err(e) => Err(e),
                    Ok(providers) => Ok(DefaultsView { schema: n as u32, providers }),
                }
            },
            (None, _) => Err("schema must be a small integer"@),
            _ => Err("providers must be an object"@),
        },
    }
}

fn keys_only(m: &Vec<Member>, a: &str, b: &str) -> (r: bool)
    ensures
        r == only(json::members(m@), a@, b@),
{
    let ghost d = json::members(m@);
    let mut i: usize = 0;
    while i < m.len()
        invariant
            d == json::members(m@),
            i <= m@.len(),
            forall|k: int| 0 <= k < i ==> (#[trigger] d[k]).key == a@ || d[k].key == b@,
        decreases m.len() - i,
    {
        assert(d[i as int].key == m@[i as int].key@);
        if !text::eq(m[i].key.as_str(), a) && !text::eq(m[i].key.as_str(), b) {
            return false;
        }
        i = i + 1;
    }
    true
}

fn two_of<'a>(j: &'a Json, a: &str, b: &str) -> (r: Option<(&'a Json, &'a Json)>)
    ensures
        match (r, two(j@, a@, b@)) {
            (Some((x, y)), Some((v, w))) => x@ == v && y@ == w,
            (None, None) => true,
            _ => false,
        },
{
    match j {
        Json::Obj(m) => {
            proof {
                json::members_view(*j, *m);
            }
            match (j.get(a), j.get(b)) {
                (Some(x), Some(y)) => if keys_only(m, a, b) {
                    Some((x, y))
                } else {
                    None
                },
                _ => None,
            }
        },
        Json::Arr(v) => if v.len() == 2 {
            proof {
                json::items_view(*j, *v);
            }
            Some((&v[0], &v[1]))
        } else {
            proof {
                json::items_view(*j, *v);
            }
            None
        },
        _ => None,
    }
}

fn names(j: &Json, s: &str) -> (r: bool)
    ensures
        r == (j@ == JsonView::Str(s@)),
{
    match j.as_str() {
        Some(t) => text::eq(t, s),
        None => false,
    }
}

fn selector_of(j: &Json) -> (r: Option<ModelSelector>)
    ensures
        match (r, read_selector(j@)) {
            (Some(s), Some(v)) => s@ == v,
            (None, None) => true,
            _ => false,
        },
{
    proof {
        reveal_strlit("provider_default");
        reveal_strlit("model");
        assert("provider_default"@.len() != "model"@.len());
    }
    match j {
        Json::Obj(m) => {
            proof {
                json::members_view(*j, *m);
            }
            match j.get_str("mode") {
                Some(mode) => {
                    if text::eq(mode, "provider_default") {
                        return Some(ModelSelector::ProviderDefault);
                    }
                    if !text::eq(mode, "model") || !keys_only(m, "mode", "model") {
                        return None;
                    }
                    match j.get_str("model") {
                        Some(s) => Some(ModelSelector::Model { model: s.to_owned() }),
                        None => None,
                    }
                },
                None => None,
            }
        },
        Json::Arr(v) => {
            proof {
                json::items_view(*j, *v);
            }
            if v.len() == 1 && names(&v[0], "provider_default") {
                return Some(ModelSelector::ProviderDefault);
            }
            if v.len() == 2 && names(&v[0], "model") {
                return match v[1].as_str() {
                    Some(s) => Some(ModelSelector::Model { model: s.to_owned() }),
                    None => None,
                };
            }
            None
        },
        _ => None,
    }
}

fn roles_of(m: &Vec<Member>) -> (r: Result<Vec<(String, ModelSelector)>, String>)
    ensures
        match (r, read_roles(json::members(m@))) {
            (Ok(v), Ok(w)) => dict::pairs(v@) == w && dict::ordered(w),
            (Err(e), Err(f)) => e@ == f,
            _ => false,
        },
{
    let ghost d = json::members(m@);
    let mut out: Vec<(String, ModelSelector)> = Vec::new();
    let mut i: usize = 0;
    assert(dict::pairs(out@) =~= seq![]);
    assert(d.take(0) =~= seq![]);
    while i < m.len()
        invariant
            d == json::members(m@),
            i <= m@.len(),
            dict::ordered(dict::pairs(out@)),
            read_roles(d.take(i as int)) == Ok::<Seq<(Seq<char>, SelectorView)>, Seq<char>>(
                dict::pairs(out@),
            ),
        decreases m.len() - i,
    {
        assert(d.take(i + 1).drop_last() =~= d.take(i as int));
        assert(d.take(i + 1).last() == json::member(m@[i as int]));
        match selector_of(&m[i].value) {
            Some(s) => {
                dict::insert(&mut out, m[i].key.clone(), s);
            },
            None => {
                let e = "role '".to_owned().concat(m[i].key.as_str()).concat(
                    "' must name a model or the provider default",
                );
                proof {
                    roles_fail(d, i + 1, e@);
                }
                return Err(e);
            },
        }
        i = i + 1;
    }
    assert(d.take(i as int) =~= d);
    Ok(out)
}

/// A fault in the first roles is the fault of all.
proof fn roles_fail(m: Seq<MemberView>, n: int, e: Seq<char>)
    requires
        0 <= n <= m.len(),
        read_roles(m.take(n)) == Err::<Seq<(Seq<char>, SelectorView)>, Seq<char>>(e),
    ensures
        read_roles(m) == Err::<Seq<(Seq<char>, SelectorView)>, Seq<char>>(e),
    decreases m.len(),
{
    if n < m.len() {
        assert(m.drop_last().take(n) =~= m.take(n));
        roles_fail(m.drop_last(), n, e);
    } else {
        assert(m.take(n) =~= m);
    }
}

fn provider_of(name: &str, j: &Json) -> (r: Result<ProviderDefaults, String>)
    ensures
        match (r, read_provider(name@, j@)) {
            (Ok(p), Ok(q)) => p@ == q && dict::ordered(q.roles),
            (Err(e), Err(f)) => e@ == f,
            _ => false,
        },
{
    let (d, roles) = match two_of(j, "default", "roles") {
        Some(p) => p,
        None => {
            return Err(
                "provider '".to_owned().concat(name).concat(
                    "' must hold default and roles, and nothing else",
                ),
            );
        },
    };
    let default = match selector_of(d) {
        Some(s) => s,
        None => {
            return Err(
                "the default of provider '".to_owned().concat(name).concat(
                    "' must name a model or the provider default",
                ),
            );
        },
    };
    match roles {
        Json::Obj(m) => {
            proof {
                json::members_view(*roles, *m);
            }
            match roles_of(m) {
                Ok(roles) => Ok(ProviderDefaults { default, roles }),
                Err(e) => Err(e),
            }
        },
        _ => Err("the roles of provider '".to_owned().concat(name).concat("' must be an object")),
    }
}

fn providers_of(m: &Vec<Member>) -> (r: Result<Vec<(String, ProviderDefaults)>, String>)
    ensures
        match (r, read_providers(json::members(m@))) {
            (Ok(v), Ok(w)) => dict::pairs(v@) == w,
            (Err(e), Err(f)) => e@ == f,
            _ => false,
        },
{
    let ghost d = json::members(m@);
    let mut out: Vec<(String, ProviderDefaults)> = Vec::new();
    let mut i: usize = 0;
    assert(dict::pairs(out@) =~= seq![]);
    assert(d.take(0) =~= seq![]);
    while i < m.len()
        invariant
            d == json::members(m@),
            i <= m@.len(),
            dict::ordered(dict::pairs(out@)),
            read_providers(d.take(i as int)) == Ok::<Seq<(Seq<char>, ProviderView)>, Seq<char>>(
                dict::pairs(out@),
            ),
        decreases m.len() - i,
    {
        assert(d.take(i + 1).drop_last() =~= d.take(i as int));
        assert(d.take(i + 1).last() == json::member(m@[i as int]));
        match provider_of(m[i].key.as_str(), &m[i].value) {
            Ok(p) => {
                dict::insert(&mut out, m[i].key.clone(), p);
            },
            Err(e) => {
                proof {
                    providers_fail(d, i + 1, e@);
                }
                return Err(e);
            },
        }
        i = i + 1;
    }
    assert(d.take(i as int) =~= d);
    Ok(out)
}

proof fn providers_fail(m: Seq<MemberView>, n: int, e: Seq<char>)
    requires
        0 <= n <= m.len(),
        read_providers(m.take(n)) == Err::<Seq<(Seq<char>, ProviderView)>, Seq<char>>(e),
    ensures
        read_providers(m) == Err::<Seq<(Seq<char>, ProviderView)>, Seq<char>>(e),
    decreases m.len(),
{
    if n < m.len() {
        assert(m.drop_last().take(n) =~= m.take(n));
        providers_fail(m.drop_last(), n, e);
    } else {
        assert(m.take(n) =~= m);
    }
}

/// The config that a value writes.
pub fn defaults_of(j: &Json) -> (r: Result<ModelDefaults, String>)
    ensures
        match (r, read_defaults(j@)) {
            (Ok(c), Ok(d)) => c@ == d && d.wf(),
            (Err(e), Err(f)) => e@ == f,
            _ => false,
        },
{
    let (s, p) = match two_of(j, "schema", "providers") {
        Some(p) => p,
        None => {
            return Err("it must hold schema and providers, and nothing else".to_owned());
        },
    };
    let schema = match s.as_u64() {
        Some(n) => n,
        None => {
            return Err("schema must be a small integer".to_owned());
        },
    };
    match p {
        Json::Obj(m) => {
            if schema > u32::MAX as u64 {
                return Err("schema must be a small integer".to_owned());
            }
            proof {
                json::members_view(*p, *m);
                read_is_wf(json::members(m@));
            }
            match providers_of(m) {
                Ok(providers) => Ok(ModelDefaults { schema: schema as u32, providers }),
                Err(e) => Err(e),
            }
        },
        _ => Err("providers must be an object".to_owned()),
    }
}

proof fn roles_ordered(m: Seq<MemberView>)
    ensures
        match read_roles(m) {
            Ok(v) => dict::ordered(v),
            Err(e) => true,
        },
    decreases m.len(),
{
    if m.len() > 0 {
        roles_ordered(m.drop_last());
        if let Ok(v) = read_roles(m.drop_last()) {
            if let Some(s) = read_selector(m.last().value) {
                dict::put_ordered(v, m.last().key, s);
            }
        }
    }
}

proof fn put_members<V>(s: Seq<(Seq<char>, V)>, k: Seq<char>, v: V)
    ensures
        forall|i: int|
            0 <= i < dict::put(s, k, v).len() ==> (#[trigger] dict::put(s, k, v)[i]).1 == v
                || exists|j: int| 0 <= j < s.len() && #[trigger] s[j] == dict::put(s, k, v)[i],
    decreases s.len(),
{
    if s.len() > 0 && !text::lt(s.last().0, k) && s.last().0 != k {
        let rest = s.drop_last();
        let r = dict::put(rest, k, v);
        put_members(rest, k, v);
        assert forall|i: int| 0 <= i < dict::put(s, k, v).len() implies (
        #[trigger] dict::put(s, k, v)[i]).1 == v || exists|j: int|
            0 <= j < s.len() && #[trigger] s[j] == dict::put(s, k, v)[i] by {
            if i < r.len() {
                assert(dict::put(s, k, v)[i] == r[i]);
                if r[i].1 != v {
                    let j = choose|j: int| 0 <= j < rest.len() && #[trigger] rest[j] == r[i];
                    assert(s[j] == r[i]);
                }
            } else {
                assert(s[s.len() - 1] == s.last());
            }
        }
    } else if s.len() > 0 {
        assert forall|i: int| 0 <= i < dict::put(s, k, v).len() implies (
        #[trigger] dict::put(s, k, v)[i]).1 == v || exists|j: int|
            0 <= j < s.len() && #[trigger] s[j] == dict::put(s, k, v)[i] by {
            if i < dict::put(s, k, v).len() - 1 {
                assert(s[i] == dict::put(s, k, v)[i]);
            }
        }
    }
}

proof fn read_is_wf(m: Seq<MemberView>)
    ensures
        match read_providers(m) {
            Ok(v) => (DefaultsView { schema: 0, providers: v }).wf(),
            Err(e) => true,
        },
    decreases m.len(),
{
    if m.len() > 0 {
        read_is_wf(m.drop_last());
        if let Ok(v) = read_providers(m.drop_last()) {
            if let Ok(p) = read_provider(m.last().key, m.last().value) {
                let w = dict::put(v, m.last().key, p);
                dict::put_ordered(v, m.last().key, p);
                put_members(v, m.last().key, p);
                let r = (two(m.last().value, "default"@, "roles"@)->0).1;
                roles_ordered(r->Obj_0);
                assert forall|i: int| 0 <= i < w.len() implies dict::ordered(
                    (#[trigger] w[i]).1.roles,
                ) by {
                    if w[i].1 != p {
                        let j = choose|j: int| 0 <= j < v.len() && #[trigger] v[j] == w[i];
                        assert(dict::ordered(v[j].1.roles));
                    }
                }
            }
        }
    }
}

/// What a body whose walk gave a revision comes to, from what the parser
/// made of it.
pub open spec fn settings(
    revision: i64,
    parsed: Result<JsonView, Seq<char>>,
    eligible: Seq<Seq<char>>,
) -> Result<(i64, DefaultsView), Fault> {
    let rejected = |why: Seq<char>|
        Err::<(i64, DefaultsView), Fault>(
            model_defaults::config_fault("model defaults document was rejected: "@ + why),
        );
    match parsed {
        Err(e) => rejected(e),
        Ok(j) => match json::field(j, "config"@) {
            None => rejected("it must hold a config"@),
            Some(c) => match read_defaults(c) {
                Err(e) => rejected(e),
                Ok(d) => match model_defaults::checked(d, eligible) {
                    (d, None) => Ok((revision, d)),
                    (d, Some(f)) => Err(f),
                },
            },
        },
    }
}

pub open spec fn wrote(r: Result<SettingsWrite, Error>, s: Result<(i64, DefaultsView), Fault>) -> bool {
    match (r, s) {
        (Ok(w), Ok((n, d))) => w.expected_revision == n && w.config@ == d && d.wf(),
        (Err(e), Err(f)) => e.says(f.code, f.message),
        _ => false,
    }
}

fn rejected(why: &str) -> (e: Error)
    ensures
        e.says("invalid_config"@, "model defaults document was rejected: "@ + why@),
{
    Error::Invalid {
        code: "invalid_config",
        message: "model defaults document was rejected: ".to_owned().concat(why),
    }
}

/// What the parsed body comes to.
pub fn settings_from(revision: i64, parsed: Result<Json, String>, eligible: &Vec<String>) -> (r:
    Result<SettingsWrite, Error>)
    ensures
        wrote(
            r,
            settings(
                revision,
                match parsed {
                    Ok(j) => Ok(j@),
                    Err(e) => Err(e@),
                },
                eligible.deep_view(),
            ),
        ),
{
    let body = match parsed {
        Ok(j) => j,
        Err(e) => {
            return Err(rejected(e.as_str()));
        },
    };
    let c = match body.get("config") {
        Some(c) => c,
        None => {
            return Err(rejected("it must hold a config"));
        },
    };
    let mut config = match defaults_of(c) {
        Ok(d) => d,
        Err(e) => {
            return Err(rejected(e.as_str()));
        },
    };
    match validate_config(&mut config, eligible) {
        Ok(_) => Ok(SettingsWrite { expected_revision: revision, config }),
        Err(e) => Err(e),
    }
}

/// Reads a settings body. A repeated key is refused from the text itself,
/// and the config takes 16384 bytes at most.
pub fn parse_settings_document(raw: &str, eligible: &Vec<String>) -> (r: Result<SettingsWrite, Error>)
    ensures
        match scanned(raw@) {
            Err(f) => r is Err && (r->Err_0).says(f.code, f.message),
            Ok(n) => wrote(r, settings(n, json::parsed(raw@), eligible.deep_view())),
        },
{
    match scan_settings(raw) {
        Err(e) => Err(e),
        Ok(n) => settings_from(n, json::parse(raw), eligible),
    }
}

// ---------- showing a config ----------

pub open spec fn selector_json(s: SelectorView) -> JsonView {
    match s {
        SelectorView::Model(m) => JsonView::Obj(
            seq![
                MemberView { key: "mode"@, value: JsonView::Str("model"@) },
                MemberView { key: "model"@, value: JsonView::Str(m) },
            ],
        ),
        SelectorView::ProviderDefault => JsonView::Obj(
            seq![MemberView { key: "mode"@, value: JsonView::Str("provider_default"@) }],
        ),
    }
}

pub open spec fn role_json(p: (Seq<char>, SelectorView)) -> MemberView {
    MemberView { key: p.0, value: selector_json(p.1) }
}

pub open spec fn provider_value(p: ProviderView) -> JsonView {
    JsonView::Obj(
        seq![
            MemberView { key: "default"@, value: selector_json(p.default) },
            MemberView {
                key: "roles"@,
                value: JsonView::Obj(
                    p.roles.map_values(|r: (Seq<char>, SelectorView)| role_json(r)),
                ),
            },
        ],
    )
}

pub open spec fn provider_json(p: (Seq<char>, ProviderView)) -> MemberView {
    MemberView { key: p.0, value: provider_value(p.1) }
}

/// A config as JSON.
pub open spec fn config_json(c: DefaultsView) -> JsonView {
    JsonView::Obj(
        seq![
            MemberView {
                key: "providers"@,
                value: JsonView::Obj(
                    c.providers.map_values(|p: (Seq<char>, ProviderView)| provider_json(p)),
                ),
            },
            MemberView { key: "schema"@, value: JsonView::Num(text::dec(c.schema as nat)) },
        ],
    )
}

fn show_selector(s: &ModelSelector) -> (r: Json)
    ensures
        r@ == selector_json(s@),
{
    let mut m: Vec<Member> = Vec::new();
    assert(json::members(m@) =~= seq![]);
    match s {
        ModelSelector::Model { model } => {
            put_member(&mut m, "mode", Json::Str("model".to_owned()));
            put_member(&mut m, "model", Json::Str(model.clone()));
        },
        ModelSelector::ProviderDefault => {
            put_member(&mut m, "mode", Json::Str("provider_default".to_owned()));
        },
    }
    let r = object_of(m);
    assert(r@->Obj_0 =~= selector_json(s@)->Obj_0);
    r
}

fn show_roles(v: &Vec<(String, ModelSelector)>) -> (r: Json)
    ensures
        r@ == JsonView::Obj(
            dict::pairs(v@).map_values(|r: (Seq<char>, SelectorView)| role_json(r)),
        ),
{
    let ghost d = dict::pairs(v@);
    let ghost all = d.map_values(|r: (Seq<char>, SelectorView)| role_json(r));
    let mut m: Vec<Member> = Vec::new();
    let mut i: usize = 0;
    assert(json::members(m@) =~= all.take(0));
    while i < v.len()
        invariant
            d == dict::pairs(v@),
            all == d.map_values(|r: (Seq<char>, SelectorView)| role_json(r)),
            i <= v@.len(),
            json::members(m@) == all.take(i as int),
        decreases v.len() - i,
    {
        put_member(&mut m, v[i].0.as_str(), show_selector(&v[i].1));
        assert(d[i as int] == (v@[i as int].0@, v@[i as int].1@));
        assert(json::members(m@) =~= all.take(i + 1));
        i = i + 1;
    }
    assert(all.take(i as int) =~= all);
    object_of(m)
}

fn show_provider(p: &ProviderDefaults) -> (r: Json)
    ensures
        r@ == provider_value(p@),
{
    let mut m: Vec<Member> = Vec::new();
    assert(json::members(m@) =~= seq![]);
    put_member(&mut m, "default", show_selector(&p.default));
    put_member(&mut m, "roles", show_roles(&p.roles));
    let r = object_of(m);
    assert(r@->Obj_0 =~= provider_value(p@)->Obj_0);
    r
}

/// A config as JSON.
pub fn show_config(c: &ModelDefaults) -> (r: Json)
    ensures
        r@ == config_json(c@),
{
    let v = &c.providers;
    let ghost d = dict::pairs(v@);
    let ghost all = d.map_values(|p: (Seq<char>, ProviderView)| provider_json(p));
    let mut m: Vec<Member> = Vec::new();
    let mut i: usize = 0;
    assert(json::members(m@) =~= all.take(0));
    while i < v.len()
        invariant
            d == dict::pairs(v@),
            all == d.map_values(|p: (Seq<char>, ProviderView)| provider_json(p)),
            i <= v@.len(),
            json::members(m@) == all.take(i as int),
        decreases v.len() - i,
    {
        put_member(&mut m, v[i].0.as_str(), show_provider(&v[i].1));
        assert(d[i as int] == (v@[i as int].0@, v@[i as int].1@));
        assert(json::members(m@) =~= all.take(i + 1));
        i = i + 1;
    }
    assert(all.take(i as int) =~= all);
    let mut top: Vec<Member> = Vec::new();
    assert(json::members(top@) =~= seq![]);
    put_member(&mut top, "providers", object_of(m));
    put_member(&mut top, "schema", Json::Num(text::dec_of(c.schema as u64)));
    let r = object_of(top);
    assert(r@->Obj_0 =~= config_json(c@)->Obj_0);
    r
}

// ---------- laws ----------

proof fn names_differ()
    ensures
        "mode"@ != "model"@,
        "model"@ != "provider_default"@,
        "default"@ != "roles"@,
        "schema"@ != "providers"@,
{
    reveal_strlit("mode");
    reveal_strlit("model");
    reveal_strlit("provider_default");
    reveal_strlit("default");
    reveal_strlit("roles");
    reveal_strlit("schema");
    reveal_strlit("providers");
    assert("mode"@.len() == 4 && "model"@.len() == 5 && "provider_default"@.len() == 16);
    assert("default"@.len() == 7 && "roles"@.len() == 5);
    assert("schema"@.len() == 6 && "providers"@.len() == 9);
}

proof fn selector_reads_back(s: SelectorView)
    ensures
        read_selector(selector_json(s)) == Some(s),
{
    names_differ();
    reveal_with_fuel(json::entry, 3);
    let m = selector_json(s)->Obj_0;
    assert(m[0].key == "mode"@);
    if s is Model {
        assert(m.drop_first()[0] == m[1]);
    }
}

proof fn put_last<V>(s: Seq<(Seq<char>, V)>)
    requires
        dict::ordered(s),
        s.len() > 0,
    ensures
        dict::ordered(s.drop_last()),
        dict::put(s.drop_last(), s.last().0, s.last().1) == s,
{
    let rest = s.drop_last();
    let k = dict::keys(s);
    assert forall|a: int, b: int| 0 <= a < b < rest.len() implies text::lt(
        #[trigger] dict::keys(rest)[a],
        #[trigger] dict::keys(rest)[b],
    ) by {
        assert(k[a] == dict::keys(rest)[a]);
        assert(k[b] == dict::keys(rest)[b]);
    }
    if rest.len() > 0 {
        assert(text::lt(k[rest.len() - 1], k[s.len() - 1]));
    }
    assert(rest.push((s.last().0, s.last().1)) =~= s);
}

proof fn roles_read_back(v: Seq<(Seq<char>, SelectorView)>)
    requires
        dict::ordered(v),
    ensures
        read_roles(v.map_values(|r: (Seq<char>, SelectorView)| role_json(r))) == Ok::<
            Seq<(Seq<char>, SelectorView)>,
            Seq<char>,
        >(v),
    decreases v.len(),
{
    let m = v.map_values(|r: (Seq<char>, SelectorView)| role_json(r));
    if v.len() > 0 {
        put_last(v);
        roles_read_back(v.drop_last());
        assert(m.drop_last() =~= v.drop_last().map_values(
            |r: (Seq<char>, SelectorView)| role_json(r),
        ));
        selector_reads_back(v.last().1);
    } else {
        assert(v =~= seq![]);
    }
}

proof fn provider_reads_back(name: Seq<char>, p: ProviderView)
    requires
        dict::ordered(p.roles),
    ensures
        read_provider(name, provider_value(p)) == Ok::<ProviderView, Seq<char>>(p),
{
    names_differ();
    reveal_with_fuel(json::entry, 3);
    let m = provider_value(p)->Obj_0;
    assert(m.drop_first()[0] == m[1]);
    selector_reads_back(p.default);
    roles_read_back(p.roles);
}

proof fn providers_read_back(v: Seq<(Seq<char>, ProviderView)>)
    requires
        (DefaultsView { schema: 0, providers: v }).wf(),
    ensures
        read_providers(v.map_values(|p: (Seq<char>, ProviderView)| provider_json(p))) == Ok::<
            Seq<(Seq<char>, ProviderView)>,
            Seq<char>,
        >(v),
    decreases v.len(),
{
    let m = v.map_values(|p: (Seq<char>, ProviderView)| provider_json(p));
    if v.len() > 0 {
        put_last(v);
        let rest = v.drop_last();
        assert forall|i: int| 0 <= i < rest.len() implies dict::ordered(
            (#[trigger] rest[i]).1.roles,
        ) by {
            assert(dict::ordered(v[i].1.roles));
        }
        providers_read_back(rest);
        assert(m.drop_last() =~= rest.map_values(
            |p: (Seq<char>, ProviderView)| provider_json(p),
        ));
        assert(dict::ordered(v[v.len() - 1].1.roles));
        provider_reads_back(v.last().0, v.last().1);
    } else {
        assert(v =~= seq![]);
    }
}

/// What is shown of a config reads back as the config.
pub proof fn a_config_reads_back(c: DefaultsView)
    requires
        c.wf(),
    ensures
        read_defaults(config_json(c)) == Ok::<DefaultsView, Seq<char>>(c),
{
    names_differ();
    reveal_with_fuel(json::entry, 3);
    let m = config_json(c)->Obj_0;
    assert(m.drop_first()[0] == m[1]);
    text::dec_reads_back(c.schema as nat);
    assert((DefaultsView { schema: 0, providers: c.providers }).wf()) by {
        assert forall|i: int| 0 <= i < c.providers.len() implies dict::ordered(
            (#[trigger] c.providers[i]).1.roles,
        ) by {}
    }
    providers_read_back(c.providers);
}

} // verus!
