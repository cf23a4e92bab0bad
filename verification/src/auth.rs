//! The resolved principal attached to a request: who is acting, with which
//! role, from which device class. The resolver that produces it from a
//! signed credential lives here too.

use vstd::prelude::*;

use crate::model::view_opt_string;

verus! {

/// A resolved principal: a verified user id, the stored role, and the
/// device class the credential was minted for.
#[derive(Clone, Debug)]
pub struct AuthUser {
    pub user_id: i32,
    pub role: Option<String>,
    pub device: String,
}

pub struct AuthUserV {
    pub user_id: i32,
    pub role: Option<Seq<char>>,
    pub device: Seq<char>,
}

impl View for AuthUser {
    type V = AuthUserV;

    open spec fn view(&self) -> AuthUserV {
        AuthUserV {
            user_id: self.user_id,
            role: view_opt_string(self.role),
            device: self.device@,
        }
    }
}

/// A principal that may be absent: an unauthenticated request carries
/// `None`.
#[derive(Clone, Debug)]
pub struct OptionalAuthUser(pub Option<AuthUser>);

/// Whether the principal holds the administrator role.
pub open spec fn spec_is_admin(a: AuthUserV) -> bool {
    a.role == Some("ADMIN"@)
}

} // verus!

verus! {

// ---------------------------------------------------------------------------
// claims
// ---------------------------------------------------------------------------

/// A claim value as the resolver reads it: an integer, a string, or
/// something it has no use for.
pub enum ClaimValue {
    IntVal(i64),
    StrVal(String),
    OtherVal,
}

pub enum ClaimValueV {
    IntV(i64),
    StrV(Seq<char>),
    OtherV,
}

impl View for ClaimValue {
    type V = ClaimValueV;

    open spec fn view(&self) -> ClaimValueV {
        match self {
            ClaimValue::IntVal(i) => ClaimValueV::IntV(*i),
            ClaimValue::StrVal(s) => ClaimValueV::StrV(s@),
            ClaimValue::OtherVal => ClaimValueV::OtherV,
        }
    }
}

pub open spec fn spec_opt_claim(o: Option<ClaimValue>) -> Option<ClaimValueV> {
    match o {
        Some(v) => Some(v@),
        None => None,
    }
}

/// The claim stored under `key` in a token that verifies under `secret`
/// (HS256, expiry deliberately not enforced); a function of the three
/// texts alone. `None` when the token does not verify or has no such
/// claim.
pub uninterp spec fn jwt_claim_of(secret: Seq<char>, token: Seq<char>, key: Seq<char>) -> Option<
    ClaimValueV,
>;

/// Relies on jsonwebtoken's `decode` with HS256 and `validate_exp` off:
/// the claim under `key` of a token verifying under `secret`, folded to
/// the forms the resolver reads.
#[verifier::external_body]
fn jwt_claim(secret: &str, token: &str, key: &str) -> (r: Option<ClaimValue>)
    ensures
        spec_opt_claim(r) == jwt_claim_of(secret@, token@, key@),
{
    let dkey = jsonwebtoken::DecodingKey::from_secret(secret.as_bytes());
    let mut validation = jsonwebtoken::Validation::new(jsonwebtoken::Algorithm::HS256);
    validation.validate_exp = false;
    let data = jsonwebtoken::decode::<serde_json::Value>(token, &dkey, &validation).ok()?;
    match data.claims.get(key) {
        None => None,
        Some(serde_json::Value::Number(n)) => match n.as_i64() {
            Some(i) => Some(ClaimValue::IntVal(i)),
            None => Some(ClaimValue::OtherVal),
        },
        Some(serde_json::Value::String(s)) => Some(ClaimValue::StrVal(s.clone())),
        Some(_) => Some(ClaimValue::OtherVal),
    }
}

/// The signed credential embedding `loginId`, `device` and `exp` claims
/// under `secret` (HS256); a function of its inputs alone.
pub uninterp spec fn jwt_token_of(secret: Seq<char>, login_id: i32, device: Seq<char>, exp: u64) -> Seq<
    char,
>;

/// Relies on jsonwebtoken's `encode` with the default HS256 header: the
/// signed credential carrying exactly these claims. Encoding cannot fail
/// here — the key family matches the header, serialising a JSON map is
/// infallible, and the HMAC signer is total — so the credential is always
/// produced.
#[verifier::external_body]
fn jwt_encode(secret: &str, login_id: i32, device: &str, exp: u64) -> (r: Option<String>)
    ensures
        r is Some,
        r matches Some(t) ==> t@ == jwt_token_of(secret@, login_id, device@, exp),
{
    let mut claims = serde_json::Map::new();
    claims.insert("loginId".to_string(), serde_json::Value::from(login_id));
    claims.insert("device".to_string(), serde_json::Value::from(device));
    claims.insert("exp".to_string(), serde_json::Value::from(exp));
    let key = jsonwebtoken::EncodingKey::from_secret(secret.as_bytes());
    jsonwebtoken::encode(&jsonwebtoken::Header::default(), &serde_json::Value::Object(claims), &key)
        .ok()
}

// ---------------------------------------------------------------------------
// reading the claims
// ---------------------------------------------------------------------------

/// The user id one claim value yields: an integer claim accepted only
/// within the id type's range, a string claim parsed as a decimal
/// integer. An out-of-range integer names nobody, exactly as an
/// out-of-range string does.
pub open spec fn spec_claim_user_id(v: ClaimValueV) -> Option<i32> {
    match v {
        ClaimValueV::IntV(i) => if i32::MIN <= i <= i32::MAX {
            Some(i as i32)
        } else {
            None
        },
        ClaimValueV::StrV(s) => crate::text::spec_parse_i32(s),
        ClaimValueV::OtherV => None,
    }
}

/// The user id one claim value yields.
pub fn claim_to_user_id(v: &ClaimValue) -> (r: Option<i32>)
    ensures
        r == spec_claim_user_id(v@),
{
    match v {
        ClaimValue::IntVal(i) => {
            if *i >= i32::MIN as i64 && *i <= i32::MAX as i64 {
                Some(*i as i32)
            } else {
                None
            }
        },
        ClaimValue::StrVal(s) => {
            let chars = crate::text::chars_of_str(s.as_str());
            crate::text::parse_i32_chars(&chars)
        },
        ClaimValue::OtherVal => None,
    }
}

pub open spec fn spec_try_user_id(secret: Seq<char>, token: Seq<char>, key: Seq<char>) -> Option<
    i32,
> {
    match jwt_claim_of(secret, token, key) {
        Some(v) => spec_claim_user_id(v),
        None => None,
    }
}

/// The user id a credential names: the first of the accepted claim names
/// that yields one, in a fixed priority order.
pub open spec fn spec_resolve_user_id(secret: Seq<char>, token: Seq<char>) -> Option<i32> {
    match spec_try_user_id(secret, token, "loginId"@) {
        Some(u) => Some(u),
        None => match spec_try_user_id(secret, token, "userId"@) {
            Some(u) => Some(u),
            None => match spec_try_user_id(secret, token, "id"@) {
                Some(u) => Some(u),
                None => match spec_try_user_id(secret, token, "sub"@) {
                    Some(u) => Some(u),
                    None => spec_try_user_id(secret, token, "login_id"@),
                },
            },
        },
    }
}

pub open spec fn spec_try_device(secret: Seq<char>, token: Seq<char>, key: Seq<char>) -> Option<
    Seq<char>,
> {
    match jwt_claim_of(secret, token, key) {
        Some(ClaimValueV::StrV(s)) => Some(s),
        _ => None,
    }
}

/// The device class a credential names: the first of the accepted claim
/// names holding a string, defaulting to the web class.
pub open spec fn spec_resolve_device(secret: Seq<char>, token: Seq<char>) -> Seq<char> {
    match spec_try_device(secret, token, "device"@) {
        Some(d) => d,
        None => match spec_try_device(secret, token, "loginType"@) {
            Some(d) => d,
            None => match spec_try_device(secret, token, "login_type"@) {
                Some(d) => d,
                None => match spec_try_device(secret, token, "deviceType"@) {
                    Some(d) => d,
                    None => "WEB"@,
                },
            },
        },
    }
}

fn try_user_id(secret: &str, token: &str, key: &str) -> (r: Option<i32>)
    ensures
        r == spec_try_user_id(secret@, token@, key@),
{
    match jwt_claim(secret, token, key) {
        Some(v) => claim_to_user_id(&v),
        None => None,
    }
}

fn try_device(secret: &str, token: &str, key: &str) -> (r: Option<String>)
    ensures
        crate::model::view_opt_string(r) == spec_try_device(secret@, token@, key@),
{
    match jwt_claim(secret, token, key) {
        Some(ClaimValue::StrVal(s)) => Some(s),
        _ => None,
    }
}

} // verus!

verus! {

// ---------------------------------------------------------------------------
// the resolver
// ---------------------------------------------------------------------------

/// Whether a currently issued programmatic token row matches this exact
/// credential for this user.
pub open spec fn spec_api_token_live(
    tokens: Seq<crate::model::DevTokenV>,
    token: Seq<char>,
    uid: i32,
) -> bool {
    exists|i: int| 0 <= i < tokens.len() && (#[trigger] tokens[i]).token == token
        && tokens[i].user_id == uid
}

/// What resolving a credential yields: the user id the claims name, the
/// stored role of that user, and the claimed device class — with the
/// extra liveness check on programmatic credentials.
pub open spec fn spec_authenticate(s: crate::model::StoreV, secret: Seq<char>, token: Seq<char>) -> Result<
    AuthUserV,
    int,
> {
    match spec_resolve_user_id(secret, token) {
        None => Err(0int),
        Some(uid) => {
            let role = match crate::model::spec_user_index(s.users, uid) {
                Some(i) => s.users[i].role,
                None => None,
            };
            let device = spec_resolve_device(secret, token);
            if device == "API"@ && !spec_api_token_live(s.dev_tokens, token, uid) {
                Err(1int)
            } else {
                Ok(AuthUserV { user_id: uid, role, device })
            }
        },
    }
}

impl crate::model::Store {
    fn api_token_live(&self, token: &str, uid: i32) -> (r: bool)
        ensures
            r == spec_api_token_live(self@.dev_tokens, token@, uid),
    {
        let mut i: usize = 0;
        while i < self.dev_tokens.len()
            invariant
                i <= self@.dev_tokens.len(),
                self@.dev_tokens.len() == self.dev_tokens@.len(),
                forall|j: int| 0 <= j < i ==> !((#[trigger] self@.dev_tokens[j]).token
                    == token@ && self@.dev_tokens[j].user_id == uid),
            decreases self@.dev_tokens.len() - i,
        {
            let row = &self.dev_tokens[i];
            assert(row@ == self@.dev_tokens[i as int]);
            if crate::text::str_eq(row.token.as_str(), token) && row.user_id == uid {
                return true;
            }
            i = i + 1;
        }
        false
    }

    /// Resolves a credential into a principal. The signature is verified
    /// under the shared secret with expiry deliberately not enforced; the
    /// user id comes from the first accepted claim that yields one, the
    /// role from the store, the device class from the claims. A
    /// programmatic credential must additionally match a currently issued
    /// token row — a structurally valid but rotated or disabled one is
    /// rejected with its own failure, distinct from a missing login.
    pub fn authenticate_token(&self, secret: &str, token: &str) -> (r: Result<
        AuthUser,
        crate::error::AppError,
    >)
        ensures
            ({
                let outcome = spec_authenticate(self@, secret@, token@);
                &&& (outcome matches Ok(a) ==> (r matches Ok(got) && got@ == a))
                &&& (outcome == Err::<AuthUserV, int>(0int) ==> (r matches Err(e) && e.spec_code() == 3
                    && e.spec_msg() == "please login first"@))
                &&& (outcome == Err::<AuthUserV, int>(1int) ==> (r matches Err(e) && e.spec_code() == 3
                    && e.spec_msg() == "api token已失效"@))
            }),
    {
        let uid: i32 = {
            let first = match try_user_id(secret, token, "loginId") {
                Some(u) => Some(u),
                None => match try_user_id(secret, token, "userId") {
                    Some(u) => Some(u),
                    None => match try_user_id(secret, token, "id") {
                        Some(u) => Some(u),
                        None => match try_user_id(secret, token, "sub") {
                            Some(u) => Some(u),
                            None => try_user_id(secret, token, "login_id"),
                        },
                    },
                },
            };
            match first {
                Some(u) => u,
                None => {
                    return Err(crate::error::AppError::need_login());
                },
            }
        };
        let role: Option<String> = match self.find_user_idx(uid) {
            Some(i) => crate::model::clone_opt_string(&self.users[i].role),
            None => None,
        };
        let device: String = {
            let found = match try_device(secret, token, "device") {
                Some(d) => Some(d),
                None => match try_device(secret, token, "loginType") {
                    Some(d) => Some(d),
                    None => match try_device(secret, token, "login_type") {
                        Some(d) => Some(d),
                        None => try_device(secret, token, "deviceType"),
                    },
                },
            };
            match found {
                Some(d) => d,
                None => "WEB".to_owned(),
            }
        };
        if crate::text::str_eq(device.as_str(), "API") {
            if !self.api_token_live(token, uid) {
                return Err(crate::error::AppError::api_token_invalid());
            }
        }
        Ok(AuthUser { user_id: uid, role, device })
    }

    /// The mandatory mode: a missing credential is itself a login
    /// failure.
    pub fn resolve_required(&self, secret: &str, credential: Option<String>) -> (r: Result<
        AuthUser,
        crate::error::AppError,
    >)
        ensures
            ({
                let cred = spec_normalize_credential(crate::model::view_opt_string(credential));
                &&& (cred is None ==> (r matches Err(e) && e.spec_code() == 3
                    && e.spec_msg() == "please login first"@))
                &&& (cred matches Some(t) ==> ({
                    let outcome = spec_authenticate(self@, secret@, t);
                    &&& (outcome matches Ok(a) ==> (r matches Ok(got) && got@ == a))
                    &&& (outcome is Err ==> r is Err)
                }))
            }),
    {
        match normalize_credential(credential) {
            Some(t) => self.authenticate_token(secret, t.as_str()),
            None => Err(crate::error::AppError::need_login()),
        }
    }

    /// The optional mode: a missing or rejected credential is simply no
    /// principal, never an error.
    pub fn resolve_optional(&self, secret: &str, credential: Option<String>) -> (r:
        OptionalAuthUser)
        ensures
            ({
                let cred = spec_normalize_credential(crate::model::view_opt_string(credential));
                &&& (cred is None ==> r.0 is None)
                &&& (cred matches Some(t) ==> ({
                    let outcome = spec_authenticate(self@, secret@, t);
                    &&& (outcome matches Ok(a) ==> (r.0 matches Some(got) && got@ == a))
                    &&& (outcome is Err ==> r.0 is None)
                }))
            }),
    {
        match normalize_credential(credential) {
            Some(t) => match self.authenticate_token(secret, t.as_str()) {
                Ok(a) => OptionalAuthUser(Some(a)),
                Err(_) => OptionalAuthUser(None),
            },
            None => OptionalAuthUser(None),
        }
    }
}

/// What counts as a presented credential: the header value trimmed, and
/// only when something is left of it.
pub open spec fn spec_normalize_credential(raw: Option<Seq<char>>) -> Option<Seq<char>> {
    match raw {
        Some(s) => if crate::text::spec_trim(s).len() > 0 {
            Some(crate::text::spec_trim(s))
        } else {
            None
        },
        None => None,
    }
}

/// The credential a request presents: the header value trimmed, absent
/// when nothing is left.
pub fn normalize_credential(raw: Option<String>) -> (r: Option<String>)
    ensures
        crate::model::view_opt_string(r) == spec_normalize_credential(
            crate::model::view_opt_string(raw),
        ),
{
    match raw {
        Some(s) => {
            let chars = crate::text::chars_of_str(s.as_str());
            let trimmed = crate::text::trim_chars(&chars);
            if trimmed.len() > 0 {
                Some(crate::text::string_from_chars(&trimmed))
            } else {
                None
            }
        },
        None => None,
    }
}

/// Issues a signed credential for a user and device class, expiring a
/// hundred years out; the expiry is deliberately beyond any practical
/// lifetime, and revocation of programmatic credentials happens in the
/// store instead. Issuance always succeeds.
pub fn generate_token(secret: &str, user_id: i32, device: &str, now_ms: i64) -> (r: Result<
    String,
    crate::error::AppError,
>)
    requires
        now_ms >= 0,
    ensures
        r matches Ok(t) && t@ == jwt_token_of(
            secret@,
            user_id,
            device@,
            (now_ms / 1000 + 3153600000) as u64,
        ),
{
    let exp: u64 = (now_ms / 1000 + 3153600000) as u64;
    match jwt_encode(secret, user_id, device, exp) {
        Some(t) => Ok(t),
        None => Err(crate::error::AppError::system_exception()),
    }
}

} // verus!
