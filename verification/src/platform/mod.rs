//! The connected-platform trust boundary: how a credential is enrolled,
//! what an agent's grant lets it call, and what must never leave.
//!
//! Nothing here returns credential bytes but [`load_credential`], inside
//! a grant check; every refusal carries handles only.
pub mod custody;
pub mod index;
pub mod item_laws;
pub mod laws;
pub mod local;

use crate::error::Error;
use crate::json::{self, Json, JsonView};
use crate::text;
use vstd::prelude::*;

pub use custody::{Custody, Key};

verus! {

/// What an enrollment exchange produces: the credential bytes and the
/// scopes that the record carries.
pub struct Enrollment {
    pub bytes: Vec<u8>,
    pub scopes: Vec<String>,
    /// `token` or `consent`.
    pub exchange: &'static str,
}

// ---------- enrollment ----------

pub open spec fn any_white(s: Seq<char>) -> bool {
    exists|i: int| 0 <= i < s.len() && text::white(#[trigger] s[i])
}

fn has_white(s: &str) -> (r: bool)
    ensures
        r == any_white(s@),
{
    let v = text::chars_of(s);
    let mut i: usize = 0;
    while i < v.len()
        invariant
            v@ == s@,
            i <= v@.len(),
            forall|j: int| 0 <= j < i ==> !text::white(#[trigger] s@[j]),
        decreases v.len() - i,
    {
        if text::is_white(v[i]) {
            assert(text::white(s@[i as int]));
            return true;
        }
        i = i + 1;
    }
    false
}

/// The class of personal credential that a token's prefix names.
pub open spec fn personal_kind(token: Seq<char>) -> Option<Seq<char>> {
    if text::begins(token, "ghu_"@) {
        Some("GitHub user-to-server token"@)
    } else if text::begins(token, "gho_"@) {
        Some("GitHub OAuth user token"@)
    } else if text::begins(token, "ghp_"@) {
        Some("GitHub personal access token"@)
    } else if text::begins(token, "ghr_"@) {
        Some("GitHub refresh token"@)
    } else if text::begins(token, "github_pat_"@) {
        Some("GitHub fine-grained personal access token"@)
    } else if text::begins(token, "glpat-"@) {
        Some("GitLab personal access token"@)
    } else {
        None
    }
}

/// The personal-credential class that a token's prefix names, if any. A
/// credential bound to an app (`ghs_`) is not personal.
pub fn personal_token_kind(token: &str) -> (r: Option<&'static str>)
    ensures
        r.deep_view() == personal_kind(token@),
{
    if text::starts_with(token, "ghu_") {
        Some("GitHub user-to-server token")
    } else if text::starts_with(token, "gho_") {
        Some("GitHub OAuth user token")
    } else if text::starts_with(token, "ghp_") {
        Some("GitHub personal access token")
    } else if text::starts_with(token, "ghr_") {
        Some("GitHub refresh token")
    } else if text::starts_with(token, "github_pat_") {
        Some("GitHub fine-grained personal access token")
    } else if text::starts_with(token, "glpat-") {
        Some("GitLab personal access token")
    } else {
        None
    }
}

/// Why a credential is personal and so not enrollable.
pub open spec fn personal_refusal(class: Option<Seq<char>>, token: Seq<char>) -> Option<Seq<char>> {
    match class {
        Some(c) if c != "scoped"@ => Some(
            "a '"@ + c
                + "' credential is a personal approval/publish token — not enrollable (ADR 0006 §5.3); custody holds platform-scoped credentials only"@,
        ),
        _ => match personal_kind(token) {
            Some(kind) => Some(
                "the token's shape is a "@ + kind
                    + " — a personal credential, not a platform-scoped one; enroll a narrowly scoped platform token (ADR 0006 §5.3)"@,
            ),
            None => None,
        },
    }
}

/// Refuses a personal approval or publish credential: by the declared
/// class, which must be `scoped`, and by the token's prefix.
pub fn refuse_personal(class: Option<&str>, token: &str) -> (r: Result<(), Error>)
    ensures
        match r {
            Ok(()) => personal_refusal(class.deep_view(), token@) is None,
            Err(e) => e is Rejected && personal_refusal(class.deep_view(), token@) == Some(e.text()),
        },
{
    if let Some(c) = class {
        if !text::eq(c, "scoped") {
            return Err(
                Error::Rejected(
                    "a '".to_owned().concat(c).concat(
                        "' credential is a personal approval/publish token — not enrollable (ADR 0006 §5.3); custody holds platform-scoped credentials only",
                    ),
                ),
            );
        }
    }
    if let Some(kind) = personal_token_kind(token) {
        return Err(
            Error::Rejected(
                "the token's shape is a ".to_owned().concat(kind).concat(
                    " — a personal credential, not a platform-scoped one; enroll a narrowly scoped platform token (ADR 0006 §5.3)",
                ),
            ),
        );
    }
    Ok(())
}

/// Why a token enrollment is refused.
pub open spec fn token_refusal(params: JsonView) -> Option<Seq<char>> {
    match json::field_str(params, "token"@) {
        None => Some("Missing or non-string 'token'"@),
        Some(raw) => {
            let token = text::trim(raw);
            if token.len() == 0 || vstd::utf8::encode_utf8(token).len() > 8192 {
                Some("'token' must be 1-8192 non-whitespace chars"@)
            } else if any_white(token) {
                Some("'token' contains whitespace — a credential never does; check the paste"@)
            } else {
                personal_refusal(json::field_str(params, "class"@), token)
            }
        },
    }
}

/// Enrolls an operator-minted scoped token. Surrounding white space is a
/// paste error and trimmed before the token is screened.
pub fn enroll_token(params: &Json, declared: &Vec<String>) -> (r: Result<Enrollment, Error>)
    ensures
        match r {
            Ok(e) => {
                &&& token_refusal(params@) is None
                &&& e.bytes@ == vstd::utf8::encode_utf8(
                    text::trim(json::field_str(params@, "token"@)->0),
                )
                &&& e.scopes.deep_view() == declared.deep_view()
                &&& e.exchange@ == "token"@
            },
            Err(e) => e is Rejected && token_refusal(params@) == Some(e.text()),
        },
{
    let token = match params.get_str("token") {
        None => {
            return Err(Error::Rejected("Missing or non-string 'token'".to_owned()));
        },
        Some(raw) => text::trim_of(raw),
    };
    if token.as_str().is_empty() || text::byte_len(token.as_str()) > 8192 {
        return Err(Error::Rejected("'token' must be 1-8192 non-whitespace chars".to_owned()));
    }
    if has_white(token.as_str()) {
        return Err(
            Error::Rejected(
                "'token' contains whitespace — a credential never does; check the paste".to_owned(),
            ),
        );
    }
    match refuse_personal(params.get_str("class"), token.as_str()) {
        Err(e) => Err(e),
        Ok(()) => Ok(
            Enrollment {
                bytes: text::bytes_of(token.as_str()),
                scopes: text::copy_names(declared),
                exchange: "token",
            },
        ),
    }
}

/// What a platform's consent exchange is asked for.
pub struct ConsentRequest<'a> {
    pub platform: &'a str,
    pub account: &'a str,
    /// Scopes the operator asked for on the consent screen.
    pub scopes: &'a Vec<String>,
    /// The call's fields, for what only the adapter reads.
    pub params: &'a Json,
}

/// What an adapter's consent exchange mints.
pub struct ConsentOutcome {
    /// The platform-issued credential, for custody.
    pub credential: Vec<u8>,
    /// The scopes the platform granted, when the adapter can read them.
    pub granted_scopes: Option<Vec<String>>,
}

/// The position of `platform` in the registry of consent adapters. A
/// platform not listed has no consent exchange.
pub fn consent_adapter(registered: &Vec<String>, platform: &str) -> (r: Option<usize>)
    ensures
        match r {
            Some(i) => i < registered@.len() && registered@[i as int]@ == platform@ && forall|j: int|
                0 <= j < i ==> (#[trigger] registered@[j])@ != platform@,
            None => !registered.deep_view().contains(platform@),
        },
{
    let mut i: usize = 0;
    while i < registered.len()
        invariant
            i <= registered@.len(),
            forall|j: int| 0 <= j < i ==> (#[trigger] registered@[j])@ != platform@,
        decreases registered.len() - i,
    {
        if text::eq(registered[i].as_str(), platform) {
            return Some(i);
        }
        i = i + 1;
    }
    assert forall|j: int| 0 <= j < registered.deep_view().len() implies registered.deep_view()[j]
        != platform@ by {
        assert(registered.deep_view()[j] == registered@[j]@);
    }
    None
}

/// What to ask the platform's consent adapter, or why there is nothing
/// to ask. A `token` never takes part in a consent exchange.
pub fn consent_request<'a>(
    registered: &Vec<String>,
    platform: &'a str,
    account: &'a str,
    declared: &'a Vec<String>,
    params: &'a Json,
) -> (r: Result<ConsentRequest<'a>, Error>)
    ensures
        match r {
            Ok(q) => {
                &&& json::field(params@, "token"@) is None
                &&& registered.deep_view().contains(platform@)
                &&& q.platform@ == platform@
                &&& q.account@ == account@
                &&& q.scopes == declared
                &&& q.params == params
            },
            Err(e) => {
                &&& e is Rejected
                &&& if json::field(params@, "token"@) is Some {
                    e.text()
                        == "'token' does not belong to a consent exchange — the platform issues its credential to the daemon directly (ADR 0006 §5.3)"@
                } else {
                    !registered.deep_view().contains(platform@) && e.text()
                        == "no consent-exchange adapter is registered for platform '"@ + platform@
                        + "' — CAD-501 lands AgenticOS's; enroll a scoped token with `shape: \"token\"`"@
                }
            },
        },
{
    if params.get("token").is_some() {
        return Err(
            Error::Rejected(
                "'token' does not belong to a consent exchange — the platform issues its credential to the daemon directly (ADR 0006 §5.3)".to_owned(),
            ),
        );
    }
    match consent_adapter(registered, platform) {
        None => Err(
            Error::Rejected(
                "no consent-exchange adapter is registered for platform '".to_owned().concat(
                    platform,
                ).concat(
                    "' — CAD-501 lands AgenticOS's; enroll a scoped token with `shape: \"token\"`",
                ),
            ),
        ),
        Some(i) => {
            assert(registered.deep_view()[i as int] == platform@);
            Ok(ConsentRequest { platform, account, scopes: declared, params })
        },
    }
}

/// Enrolls what a consent exchange minted: a credential that is not
/// empty, under the scopes that were granted or else those declared,
/// which must not be none.
pub fn enroll_consent(declared: &Vec<String>, outcome: Result<ConsentOutcome, Error>) -> (r: Result<
    Enrollment,
    Error,
>)
    ensures
        match outcome {
            Err(e) => r == Err::<Enrollment, Error>(e),
            Ok(o) => {
                let scopes = match o.granted_scopes {
                    Some(s) => s.deep_view(),
                    None => declared.deep_view(),
                };
                if o.credential@.len() == 0 {
                    r is Err && r->Err_0 is Internal && r->Err_0.text()
                        == "consent adapter returned an empty credential — refusing to enroll"@
                } else if scopes.len() == 0 {
                    r is Err && r->Err_0 is Rejected && r->Err_0.text()
                        == "a consent exchange must produce a scoped credential — none were granted"@
                } else {
                    r is Ok && r->Ok_0.bytes == o.credential && r->Ok_0.scopes.deep_view() == scopes
                        && r->Ok_0.exchange@ == "consent"@
                }
            },
        },
{
    let outcome = match outcome {
        Err(e) => {
            return Err(e);
        },
        Ok(o) => o,
    };
    if outcome.credential.len() == 0 {
        return Err(
            Error::Internal(
                "consent adapter returned an empty credential — refusing to enroll".to_owned(),
            ),
        );
    }
    let scopes = match outcome.granted_scopes {
        Some(s) => s,
        None => text::copy_names(declared),
    };
    assert(scopes.deep_view().len() == scopes@.len());
    if scopes.len() == 0 {
        return Err(
            Error::Rejected(
                "a consent exchange must produce a scoped credential — none were granted".to_owned(),
            ),
        );
    }
    Ok(Enrollment { bytes: outcome.credential, scopes, exchange: "consent" })
}

// ---------- the grant check ----------

/// What an agent may call on one platform account.
pub struct Grant {
    pub scopes: Vec<String>,
}

pub open spec fn account_text(platform: Seq<char>, account: Seq<char>) -> Seq<char> {
    platform + "/"@ + account
}

/// Why a call at `scope` is refused: no grant covers it. The refusal
/// names the missing scope, never a credential.
pub open spec fn grant_refusal(
    agent: Seq<char>,
    platform: Seq<char>,
    account: Seq<char>,
    scope: Seq<char>,
    grant: Option<Seq<Seq<char>>>,
    covers: bool,
    enrolled: bool,
) -> Option<Seq<char>> {
    match grant {
        Some(scopes) => if covers {
            None
        } else {
            Some(
                "scope '"@ + scope + "' is not in '"@ + agent + "'s grant on "@ + account_text(
                    platform,
                    account,
                ) + " (granted: "@ + text::join(scopes, ", "@)
                    + ") — the operator widens it with `cadence platform grant`"@,
            )
        },
        None => if enrolled {
            Some(
                "'"@ + agent + "' holds no grant on "@ + account_text(platform, account)
                    + " — scope '"@ + scope
                    + "' is not granted; the operator grants with `cadence platform grant`"@,
            )
        } else {
            Some(
                "no credential is enrolled for "@ + account_text(platform, account)
                    + " — scope '"@ + scope
                    + "' is not granted; the operator enrolls with `cadence platform enroll`, then grants"@,
            )
        },
    }
}

fn account_text_of(platform: &str, account: &str) -> (r: String)
    ensures
        r@ == account_text(platform@, account@),
{
    platform.to_owned().concat("/").concat(account)
}

/// The check before any platform traffic: `agent` may call
/// `platform`/`account` at `scope` only while a grant covers it. What
/// the store says comes in: whether the scope's name is one at all, the
/// agent's grant and whether it covers the scope, and whether a
/// credential is enrolled.
pub fn require_grant(
    agent: &str,
    platform: &str,
    account: &str,
    scope: &str,
    scope_name: Result<(), Error>,
    grant: Option<Grant>,
    covers: bool,
    enrolled: bool,
) -> (r: Result<Grant, Error>)
    ensures
        match scope_name {
            Err(e) => r == Err::<Grant, Error>(e),
            Ok(()) => {
                let refusal = grant_refusal(
                    agent@,
                    platform@,
                    account@,
                    scope@,
                    match grant {
                        Some(g) => Some(g.scopes.deep_view()),
                        None => None,
                    },
                    covers,
                    enrolled,
                );
                match r {
                    Ok(g) => refusal is None && grant == Some(g),
                    Err(e) => e is Rejected && refusal == Some(e.text()),
                }
            },
        },
{
    if let Err(e) = scope_name {
        return Err(e);
    }
    match grant {
        Some(g) => {
            if covers {
                return Ok(g);
            }
            Err(
                Error::Rejected(
                    "scope '".to_owned().concat(scope).concat("' is not in '").concat(agent).concat(
                        "'s grant on ",
                    ).concat(account_text_of(platform, account).as_str()).concat(
                        " (granted: ",
                    ).concat(text::join_of(&g.scopes, ", ").as_str()).concat(
                        ") — the operator widens it with `cadence platform grant`",
                    ),
                ),
            )
        },
        None => {
            if enrolled {
                Err(
                    Error::Rejected(
                        "'".to_owned().concat(agent).concat("' holds no grant on ").concat(
                            account_text_of(platform, account).as_str(),
                        ).concat(" — scope '").concat(scope).concat(
                            "' is not granted; the operator grants with `cadence platform grant`",
                        ),
                    ),
                )
            } else {
                Err(
                    Error::Rejected(
                        "no credential is enrolled for ".to_owned().concat(
                            account_text_of(platform, account).as_str(),
                        ).concat(" — scope '").concat(scope).concat(
                            "' is not granted; the operator enrolls with `cadence platform enroll`, then grants",
                        ),
                    ),
                )
            }
        },
    }
}

/// What the store records of an enrolled credential.
pub struct CredentialRecord {
    pub custody: String,
    pub fingerprint: String,
}

/// The credential bytes for `platform`/`account`, where custody's bytes
/// still match the recorded fingerprint: a tear between custody and the
/// record refuses. `loaded` is what custody held under the record's tag,
/// with its fingerprint.
pub fn load_credential(
    platform: &str,
    account: &str,
    record: Option<CredentialRecord>,
    loaded: Result<(Vec<u8>, String), Error>,
) -> (r: Result<Vec<u8>, Error>)
    ensures
        match record {
            None => r is Err && r->Err_0 is Rejected && r->Err_0.text()
                == "no credential is enrolled for "@ + account_text(platform@, account@),
            Some(rec) => match loaded {
                Err(e) => r == Err::<Vec<u8>, Error>(e),
                Ok((bytes, print)) => if print@ == rec.fingerprint@ {
                    r == Ok::<Vec<u8>, Error>(bytes)
                } else {
                    r is Err && r->Err_0 is Internal && r->Err_0.text() == "custody bytes for "@
                        + account_text(platform@, account@)
                        + " no longer match the recorded fingerprint — re-enroll or rotate"@
                },
            },
        },
{
    let record = match record {
        None => {
            return Err(
                Error::Rejected(
                    "no credential is enrolled for ".to_owned().concat(
                        account_text_of(platform, account).as_str(),
                    ),
                ),
            );
        },
        Some(rec) => rec,
    };
    let (bytes, print) = match loaded {
        Err(e) => {
            return Err(e);
        },
        Ok(l) => l,
    };
    if !text::eq(print.as_str(), record.fingerprint.as_str()) {
        return Err(
            Error::Internal(
                "custody bytes for ".to_owned().concat(
                    account_text_of(platform, account).as_str(),
                ).concat(" no longer match the recorded fingerprint — re-enroll or rotate"),
            ),
        );
    }
    Ok(bytes)
}

/// Withholds a text that carries the secret.
pub fn refuse_leak(what: &str, text: &str, secret: &[u8]) -> (r: Result<(), Error>)
    ensures
        match r {
            Ok(()) => text::lossy(secret@).len() == 0 || !text::holds(text@, text::lossy(secret@)),
            Err(e) => {
                &&& text::lossy(secret@).len() > 0
                &&& text::holds(text@, text::lossy(secret@))
                &&& e is Internal
                &&& e.text() == what@ + " would carry the enrolled credential — withheld"@
            },
        },
{
    let s = text::from_utf8_lossy(secret);
    if !s.as_str().is_empty() && text::contains(text, s.as_str()) {
        return Err(
            Error::Internal(
                what.to_owned().concat(" would carry the enrolled credential — withheld"),
            ),
        );
    }
    Ok(())
}

// ---------- laws ----------

/// No personal credential enrolls: a token whose prefix names a personal
/// class is refused whatever the operator declares, padded or not.
pub proof fn personal_tokens_never_enroll(params: JsonView)
    requires
        json::field_str(params, "token"@) is Some,
        personal_kind(text::trim(json::field_str(params, "token"@)->0)) is Some,
    ensures
        token_refusal(params) is Some,
{
}

/// A refused call is answered by its own words: with a grant that covers
/// the scope there is no refusal, and without one there always is.
pub proof fn only_a_covering_grant_admits(
    agent: Seq<char>,
    platform: Seq<char>,
    account: Seq<char>,
    scope: Seq<char>,
    grant: Option<Seq<Seq<char>>>,
    covers: bool,
    enrolled: bool,
)
    ensures
        grant_refusal(agent, platform, account, scope, grant, covers, enrolled) is None <==> (grant
            is Some && covers),
{
}

proof fn middle_is_held(a: Seq<char>, b: Seq<char>, c: Seq<char>)
    ensures
        text::holds(a + b + c, b),
{
    let s = a + b + c;
    assert(s.subrange(a.len() as int, a.len() as int + b.len()) =~= b);
    assert(text::at(s, b, a.len() as int));
}

/// Every refusal of a call names the scope that is missing.
pub proof fn a_refusal_names_the_scope(
    agent: Seq<char>,
    platform: Seq<char>,
    account: Seq<char>,
    scope: Seq<char>,
    grant: Option<Seq<Seq<char>>>,
    covers: bool,
    enrolled: bool,
)
    ensures
        match grant_refusal(agent, platform, account, scope, grant, covers, enrolled) {
            Some(e) => text::holds(e, scope),
            None => true,
        },
{
    let at = account_text(platform, account);
    match grant {
        Some(scopes) => {
            let rest = "' is not in '"@ + agent + "'s grant on "@ + at + " (granted: "@
                + text::join(scopes, ", "@)
                + ") — the operator widens it with `cadence platform grant`"@;
            middle_is_held("scope '"@, scope, rest);
            if !covers {
                let e = grant_refusal(agent, platform, account, scope, grant, covers, enrolled)->0;
                assert(e =~= "scope '"@ + scope + rest);
            }
        },
        None => {
            middle_is_held(
                "'"@ + agent + "' holds no grant on "@ + at + " — scope '"@,
                scope,
                "' is not granted; the operator grants with `cadence platform grant`"@,
            );
            middle_is_held(
                "no credential is enrolled for "@ + at + " — scope '"@,
                scope,
                "' is not granted; the operator enrolls with `cadence platform enroll`, then grants"@,
            );
        },
    }
}

} // verus!
