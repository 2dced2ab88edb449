//! Passwords, session tokens and the roles that requests need.
use crate::clock::utc_now;
use crate::config::{base64_of_key, random_key};
use crate::error::ApiError;
use crate::find::starts_with;
use crate::json::keys::{count_name, names_of};
use crate::json::{as_text, get, parse_json, Json};
use crate::text::{chars_of, copy_text, same_text, text_between};
use crate::trim::trim;
use argon2::password_hash::{rand_core::OsRng, PasswordHasher, PasswordVerifier, SaltString};
use argon2::{Argon2, PasswordHash};
use vstd::prelude::*;

verus! {

use crate::error::is_error;
use crate::json::keys::times;
use crate::json::{json_of_text, member, opt_json, text_of, JsonView};
use crate::text::{byte_count, opt_str_view, white_space};
use crate::trim::{all_blank, law_outer_blanks_are_trimmed, trimmed};

/// How long a session lasts.
pub const SESSION_TTL_HOURS: i64 = 24;

/// A well-formed Argon2id hash that stands in for the hash of an unknown user,
/// so that a login attempt costs the same whether or not the user exists.
pub const SENTINEL_HASH: &'static str = "$argon2id$v=19$m=19456,t=2,p=1$c25pcGRlc2stc2VudGluZWw$\
    AAAAAAAAAAAAAAAAAAAAAAAAAAAAAAAAAAAAAAAAAAA";

#[verifier::external_type_specification]
#[verifier::external_body]
pub struct ExPasswordHashError(argon2::password_hash::Error);

/// Whether Argon2 takes `password` for the password of `hash`; none where `hash`
/// is not a password hash in PHC form.
pub uninterp spec fn argon2_accepts(password: Seq<char>, hash: Seq<char>) -> Option<bool>;

/// The most bytes of a password that Argon2 takes.
pub const MAX_PASSWORD_BYTES: u64 = 0xffff_ffff;

/// Argon2's `hash_password` with default parameters and a fresh random salt, in
/// PHC form. It fails on a password that is too long, and only there. Which hash comes
/// back is left open; the password that was hashed is accepted for it.
#[verifier::external_body]
pub(crate) fn argon2_hash(password: &str) -> (r: Result<String, argon2::password_hash::Error>)
    ensures
        r is Ok <==> byte_count(password@) <= MAX_PASSWORD_BYTES,
        r matches Ok(h) ==> argon2_accepts(password@, h@) == Some(true),
{
    let salt = SaltString::generate(&mut OsRng);
    Ok(Argon2::default().hash_password(password.as_bytes(), &salt)?.to_string())
}

/// `PasswordHash::new` and Argon2's `verify_password`: the outcome is named.
#[verifier::external_body]
fn argon2_verify(password: &str, hash: &str) -> (r: Option<bool>)
    ensures
        r == argon2_accepts(password@, hash@),
{
    let parsed = PasswordHash::new(hash).ok()?;
    Some(Argon2::default().verify_password(password.as_bytes(), &parsed).is_ok())
}

/// The text of a password-hash error. Nothing is claimed of it.
#[verifier::external_body]
pub(crate) fn password_error_text(e: &argon2::password_hash::Error) -> String {
    e.to_string()
}

/// Hashes a password for storage. The hash accepts the password that it was made
/// of; a password that is too long is an internal error.
pub fn hash_password(plaintext: &str) -> (r: Result<String, ApiError>)
    ensures
        match r {
            Ok(h) => byte_count(plaintext@) <= MAX_PASSWORD_BYTES && password_accepted(
                plaintext@,
                Some(h@),
            ),
            Err(e) => byte_count(plaintext@) > MAX_PASSWORD_BYTES && e.status == 500 && e.code@ == "internal"@ && ("argon2"@ + ": "@).is_prefix_of(
                e.message@,
            ),
        },
{
    match argon2_hash(plaintext) {
        Ok(h) => Ok(h),
        Err(e) => {
            let t = password_error_text(&e);
            let err = ApiError::internal_from("argon2", t.as_str());
            proof {
                let p = "argon2"@ + ": "@;
                assert(p.is_prefix_of(err.message@));
            }
            Err(err)
        },
    }
}

/// Whether a password is right, given what a check against the stored hash said.
/// No stored hash is no match, whatever the check against the sentinel said.
pub fn password_matches(stored: bool, checked: Option<bool>) -> (r: bool)
    ensures
        r == (stored && checked == Some(true)),
{
    match checked {
        Some(ok) => ok && stored,
        None => false,
    }
}

/// Checks a password against the stored hash of a user. Without one a check
/// against the sentinel is made all the same, and the answer is no.
pub fn verify_password_constant_time(plaintext: &str, stored_hash: Option<&str>) -> (r: bool)
    ensures
        r == password_accepted(plaintext@, opt_str_view(stored_hash)),
{
    let hash: &str = match stored_hash {
        Some(h) => h,
        None => SENTINEL_HASH,
    };
    let checked = argon2_verify(plaintext, hash);
    password_matches(stored_hash.is_some(), checked)
}

/// Whether a user who has this stored hash is let in with a password.
pub open spec fn password_accepted(password: Seq<char>, stored: Option<Seq<char>>) -> bool {
    stored matches Some(h) && argon2_accepts(password, h) == Some(true)
}

/// What a session token says. `sub` is the user's id.
#[derive(Debug, Clone)]
pub struct Claims {
    pub sub: String,
    pub role: String,
    pub exp: usize,
    pub iat: usize,
}

#[verifier::external_type_specification]
#[verifier::external_body]
pub struct ExJwtError(jsonwebtoken::errors::Error);

/// The text of a token's claims, where it is signed with this secret by HMAC-SHA256 and
/// its claims are JSON; none elsewhere. Whether the token has expired is another
/// matter.
pub uninterp spec fn signed_claims(token: Seq<char>, secret: Seq<char>) -> Option<Seq<char>>;

/// Whether JSON claims have these four members.
pub open spec fn holds_claims(
    j: JsonView,
    sub: Seq<char>,
    role: Seq<char>,
    exp: int,
    iat: int,
) -> bool {
    &&& text_of(member(j, "sub"@)) == Some(sub)
    &&& text_of(member(j, "role"@)) == Some(role)
    &&& unsigned_of(member(j, "exp"@)) == Some(exp)
    &&& unsigned_of(member(j, "iat"@)) == Some(iat)
}

/// The value of a JSON number that is an integer and fits `usize`.
pub open spec fn unsigned_of(j: Option<JsonView>) -> Option<int> {
    match j {
        Some(JsonView::Number(_, Some(n))) => if 0 <= n <= usize::MAX {
            Some(n as int)
        } else {
            None
        },
        _ => None,
    }
}

/// Whether a text of claims has each of the four members once.
pub open spec fn claims_once(text: Seq<char>) -> bool {
    &&& times(text, "sub"@) == 1
    &&& times(text, "role"@) == 1
    &&& times(text, "exp"@) == 1
    &&& times(text, "iat"@) == 1
}

/// Whether a text of claims is JSON with these four members, each of them once.
pub open spec fn says_claims(
    text: Seq<char>,
    sub: Seq<char>,
    role: Seq<char>,
    exp: int,
    iat: int,
) -> bool {
    &&& json_of_text(text) matches Some(j) && holds_claims(j, sub, role, exp, iat)
    &&& claims_once(text)
}

/// `jsonwebtoken::encode` with the default header: there is always a token, since the
/// key is one for HMAC, as the header asks, and four plain members can always be written.
/// The token is signed with `secret`, and its claims are those four members, each written
/// once.
#[verifier::external_body]
fn jwt_encode(sub: &str, role: &str, exp: usize, iat: usize, secret: &str) -> (r: Result<
    String,
    jsonwebtoken::errors::Error,
>)
    ensures
        r is Ok,
        r matches Ok(t) ==> (signed_claims(t@, secret@) matches Some(x) && says_claims(
            x,
            sub@,
            role@,
            exp as int,
            iat as int,
        )),
{
    let mut m = serde_json::Map::new();
    m.insert("sub".to_string(), serde_json::Value::from(sub));
    m.insert("role".to_string(), serde_json::Value::from(role));
    m.insert("exp".to_string(), serde_json::Value::from(exp));
    m.insert("iat".to_string(), serde_json::Value::from(iat));
    let key = jsonwebtoken::EncodingKey::from_secret(secret.as_bytes());
    jsonwebtoken::encode(&jsonwebtoken::Header::default(), &m, &key)
}

/// `jsonwebtoken::decode` with default validation, into the JSON text of the claims as it
/// was signed. Where it gives a text it is that of the signed claims; where it gives none,
/// the token may be forged, malformed or past its expiry, which depends on the clock.
#[verifier::external_body]
fn jwt_decode(token: &str, secret: &str) -> (r: Option<String>)
    ensures
        r matches Some(t) ==> signed_claims(token@, secret@) == Some(t@),
{
    let key = jsonwebtoken::DecodingKey::from_secret(secret.as_bytes());
    let rules = jsonwebtoken::Validation::default();
    let data = jsonwebtoken::decode::<Box<serde_json::value::RawValue>>(token, &key, &rules).ok()?;
    Some(data.claims.get().to_string())
}

/// The text of a token error. Nothing is claimed of it.
#[verifier::external_body]
fn jwt_error_text(e: &jsonwebtoken::errors::Error) -> String {
    e.to_string()
}

/// Whether a token is signed with `secret` for this user and role, as of `now`
/// and until `SESSION_TTL_HOURS` later.
pub open spec fn issued_at(
    token: Seq<char>,
    secret: Seq<char>,
    sub: Seq<char>,
    role: Seq<char>,
    now: i64,
) -> bool {
    signed_claims(token, secret) matches Some(x) && says_claims(
        x,
        sub,
        role,
        (now + SESSION_TTL_HOURS * 3600) as usize as int,
        now as usize as int,
    )
}

/// Issues a session token for a user as of `now`: signed with `secret`, good for
/// `SESSION_TTL_HOURS`. Without a secret there is no token.
pub fn issue_token_at(user_id: &str, role: &str, secret: &str, now: i64) -> (r: Result<
    String,
    ApiError,
>)
    requires
        now + SESSION_TTL_HOURS * 3600 <= i64::MAX,
    ensures
        secret@.len() == 0 ==> (r matches Err(e) && is_error(
            e,
            500,
            "internal"@,
            "JWT secret not configured (set jwt_secret in config)"@,
        )),
        secret@.len() > 0 ==> (r matches Ok(t) && issued_at(
            t@,
            secret@,
            user_id@,
            role@,
            now,
        )),
{
    if secret.unicode_len() == 0 {
        return Err(ApiError::internal("JWT secret not configured (set jwt_secret in config)"));
    }
    let iat: usize = now as usize;
    let exp: usize = (now + SESSION_TTL_HOURS * 3600) as usize;
    match jwt_encode(user_id, role, exp, iat, secret) {
        Ok(t) => Ok(t),
        Err(e) => {
            let t = jwt_error_text(&e);
            Err(ApiError::internal_from("jwt", t.as_str()))
        },
    }
}

/// Whether `r` is what `issue_token_at` gives at that time: a token, unless the secret is
/// empty.
pub open spec fn issue_outcome(
    r: Result<String, ApiError>,
    user_id: Seq<char>,
    role: Seq<char>,
    secret: Seq<char>,
    now: i64,
) -> bool {
    match r {
        Ok(t) => secret.len() > 0 && issued_at(t@, secret, user_id, role, now),
        Err(e) => secret.len() == 0 && is_error(
            e,
            500,
            "internal"@,
            "JWT secret not configured (set jwt_secret in config)"@,
        ),
    }
}

/// Issues a session token for a user, as of the current time.
pub fn issue_token(user_id: &str, role: &str, secret: &str) -> (r: Result<String, ApiError>)
    ensures
        exists|now: i64| #[trigger] issue_outcome(r, user_id@, role@, secret@, now),
{
    let now: i64 = utc_now();
    let r = issue_token_at(user_id, role, secret, now);
    assert(issue_outcome(r, user_id@, role@, secret@, now));
    r
}

/// Reads a member that has to be an integer that fits `usize`.
fn as_unsigned(j: Option<&Json>) -> (r: Option<usize>)
    ensures
        unsigned_of(opt_json(j)) == (match r {
            Some(n) => Some(n as int),
            None => None,
        }),
{
    match j {
        Some(v) => match v {
            Json::Number(_, n) => match n {
                Some(k) => {
                    if *k >= 0 && *k <= usize::MAX as i128 {
                        Some(*k as usize)
                    } else {
                        None
                    }
                },
                None => None,
            },
            _ => None,
        },
        None => None,
    }
}

/// The session that decoded claims stand for: all four members have to be there
/// with their types, and `once` tells whether each stands there once.
pub fn session_of_claims(decoded: Option<&Json>, once: bool) -> (r: Result<Claims, ApiError>)
    ensures
        match r {
            Ok(c) => once && (decoded matches Some(j) && holds_claims(
                j@,
                c.sub@,
                c.role@,
                c.exp as int,
                c.iat as int,
            )),
            Err(e) => is_error(e, 401, "invalid_token"@, "invalid or expired session"@) && !(once
                && (decoded matches Some(j) && exists|
                sub: Seq<char>,
                role: Seq<char>,
                exp: int,
                iat: int,
            |
                holds_claims(j@, sub, role, exp, iat))),
        },
{
    if let Some(j) = decoded {
        let sub = as_text(get(j, "sub"));
        let role = as_text(get(j, "role"));
        let exp = as_unsigned(get(j, "exp"));
        let iat = as_unsigned(get(j, "iat"));
        if let (Some(s), Some(r), Some(e), Some(i)) = (sub, role, exp, iat) {
            if once {
                return Ok(Claims { sub: copy_text(s), role: copy_text(r), exp: e, iat: i });
            }
        }
    }
    Err(ApiError::unauthorized("invalid_token", "invalid or expired session"))
}

/// Whether a text of claims has each of the four members once.
pub fn has_claims_once(text: &str) -> (r: bool)
    ensures
        r == claims_once(text@),
{
    let names: Vec<Option<String>> = names_of(text);
    count_name(&names, "sub") == 1 && count_name(&names, "role") == 1 && count_name(&names, "exp")
        == 1 && count_name(&names, "iat") == 1
}

/// The session that a text of claims stands for: JSON with all four members, with their
/// types, and each of them once.
pub fn session_of_text(text: &str) -> (r: Result<Claims, ApiError>)
    ensures
        match r {
            Ok(c) => says_claims(text@, c.sub@, c.role@, c.exp as int, c.iat as int),
            Err(e) => is_error(e, 401, "invalid_token"@, "invalid or expired session"@) && !exists|
                sub: Seq<char>,
                role: Seq<char>,
                exp: int,
                iat: int,
            |
                says_claims(text@, sub, role, exp, iat),
        },
{
    let decoded = parse_json(text);
    session_of_claims(decoded.as_ref(), has_claims_once(text))
}

/// Whether these are the claims that a token carries under the signature of `secret`.
pub open spec fn reads_claims(token: Seq<char>, secret: Seq<char>, c: Claims) -> bool {
    signed_claims(token, secret) matches Some(x) && says_claims(
        x,
        c.sub@,
        c.role@,
        c.exp as int,
        c.iat as int,
    )
}

/// Reads a session token. Where it is accepted, the claims are those that were
/// signed with `secret`; without a secret nothing is accepted.
pub fn verify_token(token: &str, secret: &str) -> (r: Result<Claims, ApiError>)
    ensures
        secret@.len() == 0 ==> (r matches Err(e) && is_error(
            e,
            500,
            "internal"@,
            "JWT secret not configured"@,
        )),
        secret@.len() > 0 ==> match r {
            Ok(c) => reads_claims(token@, secret@, c),
            Err(e) => is_error(e, 401, "invalid_token"@, "invalid or expired session"@),
        },
{
    if secret.unicode_len() == 0 {
        return Err(ApiError::internal("JWT secret not configured"));
    }
    match jwt_decode(token, secret) {
        Some(text) => session_of_text(text.as_str()),
        None => session_of_claims(None, false),
    }
}

/// The claims that come out of a token are the ones that went in: whatever claims are
/// read from a token that was issued to a user name that user, the role and the times.
pub proof fn law_token_names_its_user(
    token: Seq<char>,
    secret: Seq<char>,
    sub: Seq<char>,
    role: Seq<char>,
    now: i64,
    c: Claims,
)
    requires
        issued_at(token, secret, sub, role, now),
        reads_claims(token, secret, c),
    ensures
        c.sub@ == sub,
        c.role@ == role,
        c.exp == (now + SESSION_TTL_HOURS * 3600) as usize,
        c.iat == now as usize,
        0 <= now && now + SESSION_TTL_HOURS * 3600 <= usize::MAX ==> c.exp == c.iat
            + SESSION_TTL_HOURS * 3600,
{
}

/// Generates a base64-encoded 256-bit secret for signing tokens.
pub fn generate_jwt_secret() -> (r: String)
    ensures
        exists|key: Seq<u8>| key.len() == 32 && r@ == #[trigger] crate::config::base64_text(key),
{
    let key = random_key();
    let r = base64_of_key(&key);
    assert(key@.len() == 32 && r@ == crate::config::base64_text(key@));
    r
}

/// An authenticated caller.
pub struct AuthUser(pub Claims);

impl AuthUser {
    /// Lets admins through; anyone else gets a 403.
    pub fn require_admin(&self) -> (r: Result<(), ApiError>)
        ensures
            match r {
                Ok(_) => self.0.role@ == "admin"@,
                Err(e) => self.0.role@ != "admin"@ && is_error(
                    e,
                    403,
                    "admin_required"@,
                    "this action requires admin privileges"@,
                ),
            },
    {
        if same_text(self.0.role.as_str(), "admin") {
            Ok(())
        } else {
            Err(ApiError::forbidden("admin_required", "this action requires admin privileges"))
        }
    }
}

/// The token that an `Authorization` header carries, or what is wrong with it.
pub open spec fn bearer(header: Option<Seq<char>>) -> Result<Seq<char>, (Seq<char>, Seq<char>)> {
    match header {
        None => Err(("missing_auth"@, "missing Authorization header"@)),
        Some(h) => if "Bearer "@.is_prefix_of(h) {
            Ok(trimmed(h.skip("Bearer "@.len() as int)))
        } else {
            Err(("bad_auth_scheme"@, "expected Bearer token"@))
        },
    }
}

/// Takes the token out of an `Authorization` header.
pub fn bearer_token(header: Option<&str>) -> (r: Result<String, ApiError>)
    ensures
        match r {
            Ok(t) => bearer(crate::text::opt_str_view(header)) == Ok::<
                Seq<char>,
                (Seq<char>, Seq<char>),
            >(t@),
            Err(e) => bearer(crate::text::opt_str_view(header)) matches Err(c) && is_error(
                e,
                401,
                c.0,
                c.1,
            ),
        },
{
    match header {
        None => Err(ApiError::unauthorized("missing_auth", "missing Authorization header")),
        Some(h) => {
            if starts_with(h, "Bearer ") {
                let v: Vec<char> = chars_of(h);
                let p: Vec<char> = chars_of("Bearer ");
                let n: usize = v.len();
                let k: usize = p.len();
                let rest = text_between(&v, k, n);
                assert(v@.subrange(k as int, n as int) =~= h@.skip(k as int));
                Ok(trim(rest.as_str()))
            } else {
                Err(ApiError::unauthorized("bad_auth_scheme", "expected Bearer token"))
            }
        },
    }
}

/// Lets a session go on only where its account still exists and is not disabled.
/// `disabled` is the account's flag; none where the account is gone.
pub fn account_allowed(disabled: Option<i64>) -> (r: Result<(), ApiError>)
    ensures
        match r {
            Ok(_) => disabled == Some(0i64),
            Err(e) => match disabled {
                None => is_error(
                    e,
                    403,
                    "account_gone"@,
                    "your account no longer exists; sign in again"@,
                ),
                Some(d) => d != 0 && is_error(
                    e,
                    403,
                    "account_disabled"@,
                    "your account is disabled - contact your administrator"@,
                ),
            },
        },
{
    match disabled {
        None => Err(
            ApiError::forbidden("account_gone", "your account no longer exists; sign in again"),
        ),
        Some(d) => {
            if d != 0 {
                Err(
                    ApiError::forbidden(
                        "account_disabled",
                        "your account is disabled - contact your administrator",
                    ),
                )
            } else {
                Ok(())
            }
        },
    }
}

/// The token of an `Authorization` header is what follows `Bearer `, without blanks around it;
/// another scheme is refused, and so is a request without the header.
pub proof fn law_bearer_tokens_are_read(
    a: Seq<char>,
    token: Seq<char>,
    b: Seq<char>,
    other: Seq<char>,
)
    requires
        all_blank(a),
        all_blank(b),
        token.len() > 0,
        !white_space(token[0]),
        !white_space(token.last()),
        other.take(7) != "Bearer "@,
    ensures
        bearer(Some("Bearer "@ + (a + token + b))) == Ok::<Seq<char>, (Seq<char>, Seq<char>)>(
            token,
        ),
        bearer(Some(other)) == Err::<Seq<char>, (Seq<char>, Seq<char>)>(
            ("bad_auth_scheme"@, "expected Bearer token"@),
        ),
        bearer(None) == Err::<Seq<char>, (Seq<char>, Seq<char>)>(
            ("missing_auth"@, "missing Authorization header"@),
        ),
{
    reveal_strlit("Bearer ");
    let h = "Bearer "@ + (a + token + b);
    assert("Bearer "@.is_prefix_of(h));
    assert(h.skip(7) =~= a + token + b);
    law_outer_blanks_are_trimmed(a, token, b);
}

} // verus!
