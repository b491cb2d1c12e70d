use crate::server::state::now_secs;
use crate::text::{hex_lower, hex_string, lemma_hex_lower_len};
use argon2::password_hash::rand_core::OsRng;
use argon2::password_hash::{PasswordHash, PasswordHasher, PasswordVerifier, SaltString};
use argon2::Argon2;
use vstd::prelude::*;
use vstd::utf8::encode_utf8;

verus! {

/// JWT payload.
#[derive(Debug)]
pub struct Claims {
    pub sub: String,
    /// Expiry (seconds since the epoch).
    pub exp: i64,
    /// Issue time.
    pub iat: i64,
}

/// How long a token stays valid: 7 days.
pub const TOKEN_TTL_SECS: i64 = 7 * 24 * 3600;

/// Whether Argon2 verification of `raw` against the PHC string `hash` succeeds.
pub uninterp spec fn password_matches(raw: Seq<char>, hash: Seq<char>) -> bool;

/// Hashes a password with Argon2 (default parameters) and a fresh random salt, as a PHC
/// string. The salt is random, so nothing is promised of the string itself; what is
/// claimed is the round trip that the `argon2` crate exists for (a hash it produced
/// verifies against the same password), and that hashing succeeds unless the password
/// is longer than Argon2's limit of `u32::MAX` bytes, its only refusal that depends on
/// the input (the generated salt always has a valid length).
#[verifier::external_body]
pub fn hash_password(raw: &str) -> (r: Result<String, String>)
    ensures
        r matches Ok(h) ==> password_matches(raw@, h@),
        encode_utf8(raw@).len() <= u32::MAX ==> r is Ok,
{
    let salt = SaltString::generate(&mut OsRng);
    Argon2::default().hash_password(raw.as_bytes(), &salt).map(|p| p.to_string()).map_err(
        |e| format!("hash: {e}"),
    )
}

/// Parses `hash` as a PHC string and verifies `raw` against it with Argon2; a string
/// that does not parse verifies nothing. The outcome depends on the two arguments alone.
#[verifier::external_body]
pub fn verify_password(raw: &str, hash: &str) -> (r: bool)
    ensures
        r == password_matches(raw@, hash@),
{
    match PasswordHash::new(hash) {
        Ok(parsed) => Argon2::default().verify_password(raw.as_bytes(), &parsed).is_ok(),
        Err(_) => false,
    }
}

/// The HS256 JWT that `jsonwebtoken::encode` builds for claims `{sub, exp, iat}` signed
/// with `secret`, or None when it fails.
pub uninterp spec fn jwt_encoding(secret: Seq<char>, sub: Seq<char>, iat: i64, exp: i64) -> Option<
    Seq<char>,
>;

/// `jsonwebtoken::encode` with the default (HS256) header on the claims `sub`, `exp`,
/// `iat`, serialised in that order; the result depends on the arguments alone, and it
/// is always a token (HMAC accepts any key, and a string-keyed JSON object of a string
/// and two integers always serialises).
#[verifier::external_body]
fn jwt_encode(secret: &str, sub: &str, iat: i64, exp: i64) -> (r: Result<String, String>)
    ensures
        match r {
            Ok(t) => jwt_encoding(secret@, sub@, iat, exp) == Some(t@),
            Err(_) => jwt_encoding(secret@, sub@, iat, exp) is None,
        },
        // HS256 signing takes a key of any length and these claims always serialise,
        // so encoding never fails
        r is Ok,
        // decoding the token with the same key gives the claims back (an `exp` below 0
        // is no valid expiry to the decoder)
        r matches Ok(t) ==> (exp >= 0 ==> jwt_claims(secret@, t@) == Some((sub@, exp, iat))),
{
    let mut claims = indexmap::IndexMap::new();
    claims.insert("sub", serde_json::Value::from(sub));
    claims.insert("exp", serde_json::Value::from(exp));
    claims.insert("iat", serde_json::Value::from(iat));
    let key = jsonwebtoken::EncodingKey::from_secret(secret.as_bytes());
    jsonwebtoken::encode(&jsonwebtoken::Header::default(), &claims, &key).map_err(
        |e| format!("encode jwt: {e}"),
    )
}

/// The token issued for `sub` at time `now`: expiring [`TOKEN_TTL_SECS`] later.
pub open spec fn token_issued_at(secret: Seq<char>, sub: Seq<char>, now: i64) -> Option<
    Seq<char>,
> {
    jwt_encoding(secret, sub, now, (now + TOKEN_TTL_SECS) as i64)
}

/// Whether `token`, issued for `sub` at time `now`, decodes under `secret` to the claims
/// `sub`, `exp = now + TOKEN_TTL_SECS`, `iat = now` (for an expiry not below 0).
pub open spec fn carries_claims(secret: Seq<char>, sub: Seq<char>, token: Seq<char>, now: i64) -> bool {
    now + TOKEN_TTL_SECS >= 0 ==> jwt_claims(secret, token) == Some(
        (sub, (now + TOKEN_TTL_SECS) as i64, now),
    )
}

/// Issues a token for `subject` at time `now`, valid for [`TOKEN_TTL_SECS`].
pub fn issue_token_at(secret: &str, subject: &str, now: i64) -> (r: Result<String, String>)
    requires
        now <= i64::MAX - TOKEN_TTL_SECS,
    ensures
        match r {
            Ok(t) => token_issued_at(secret@, subject@, now) == Some(t@) && carries_claims(
                secret@,
                subject@,
                t@,
                now,
            ),
            Err(_) => token_issued_at(secret@, subject@, now) is None,
        },
        r is Ok,
{
    jwt_encode(secret, subject, now, now + TOKEN_TTL_SECS)
}

/// The token issued for `sub` at time `now`, or None when no token comes: the expiry
/// would not fit an `i64`, or the encoder refused.
pub open spec fn token_at(secret: Seq<char>, sub: Seq<char>, now: i64) -> Option<Seq<char>> {
    if now <= i64::MAX - TOKEN_TTL_SECS {
        token_issued_at(secret, sub, now)
    } else {
        None
    }
}

/// What issuing a token at time `now` answers: the token, or an error when its expiry
/// would not fit an `i64`.
pub open spec fn issued_at(secret: Seq<char>, sub: Seq<char>, now: i64, r: Result<String, String>) -> bool {
    match r {
        Ok(t) => token_at(secret, sub, now) == Some(t@) && carries_claims(secret, sub, t@, now),
        Err(_) => now > i64::MAX - TOKEN_TTL_SECS,
    }
}

/// Issues a token for `subject` at time `now`, or an error when the expiry would not fit.
pub(crate) fn issue_token_checked(secret: &str, subject: &str, now: i64) -> (r: Result<
    String,
    String,
>)
    ensures
        issued_at(secret@, subject@, now, r),
{
    if now > i64::MAX - TOKEN_TTL_SECS {
        let mut e = String::new();
        crate::text::push_str(&mut e, "encode jwt: issue time out of range");
        return Err(e);
    }
    issue_token_at(secret, subject, now)
}

/// Issues a token for `subject`, valid for [`TOKEN_TTL_SECS`] from now: the answer is
/// what [`issue_token_at`] gives at the current time.
pub fn issue_token(secret: &str, subject: &str) -> (r: Result<String, String>)
    ensures
        exists|now: i64| #[trigger] issued_at(secret@, subject@, now, r),
{
    let now = now_secs();
    let r = issue_token_checked(secret, subject, now);
    assert(issued_at(secret@, subject@, now, r));
    r
}

/// What `jsonwebtoken::decode` finds in `token` when it checks the HS256 signature with
/// `secret` but not the expiry: the claims `(sub, exp, iat)`, or None when the token is
/// refused (bad signature or algorithm, malformed, `exp` missing or not a non-negative
/// integer, an `aud` claim present) or its claims are not a string `sub` and integer
/// `exp` and `iat`.
pub uninterp spec fn jwt_claims(secret: Seq<char>, token: Seq<char>) -> Option<(Seq<char>, i64, i64)>;

/// `jsonwebtoken::decode` with the default validation but the expiry check turned off,
/// the claims read as a JSON object; the result depends on the arguments alone.
#[verifier::external_body]
fn jwt_decode(secret: &str, token: &str) -> (r: Result<(String, i64, i64), String>)
    ensures
        match r {
            Ok(c) => jwt_claims(secret@, token@) == Some((c.0@, c.1, c.2)),
            Err(_) => jwt_claims(secret@, token@) is None,
        },
{
    let mut v = jsonwebtoken::Validation::default();
    v.validate_exp = false;
    let key = jsonwebtoken::DecodingKey::from_secret(secret.as_bytes());
    let c = jsonwebtoken::decode::<std::collections::BTreeMap<String, serde_json::Value>>(
        token, &key, &v).map_err(|e| format!("verify jwt: {e}"))?.claims;
    match (c.get("sub"), c.get("exp").and_then(|x| x.as_i64()), c.get("iat").and_then(|x| x.as_i64())) {
        (Some(serde_json::Value::String(s)), Some(e), Some(i)) => Ok((s.clone(), e, i)),
        _ => Err(format!("verify jwt: claims are not sub, exp and iat")),
    }
}

/// Leeway (seconds) past `exp` during which a token is still accepted.
pub const TOKEN_LEEWAY_SECS: i64 = 10;

/// Whether `token` is accepted at time `now`: signed with `secret`, with the expected
/// claims, and not expired by more than the leeway.
pub open spec fn token_accepted_at(secret: Seq<char>, token: Seq<char>, now: i64) -> bool {
    match jwt_claims(secret, token) {
        Some((_, exp, _)) => now <= exp + TOKEN_LEEWAY_SECS,
        None => false,
    }
}

/// Checks a visitor token at time `now` and gives back its claims.
pub fn verify_token_at(secret: &str, token: &str, now: i64) -> (r: Result<Claims, String>)
    ensures
        r is Ok <==> token_accepted_at(secret@, token@, now),
        r matches Ok(c) ==> jwt_claims(secret@, token@) == Some((c.sub@, c.exp, c.iat)),
{
    match jwt_decode(secret, token) {
        Ok((sub, exp, iat)) => {
            if (now as i128) <= (exp as i128) + (TOKEN_LEEWAY_SECS as i128) {
                Ok(Claims { sub, exp, iat })
            } else {
                let mut e = String::new();
                crate::text::push_str(&mut e, "verify jwt: ExpiredSignature");
                Err(e)
            }
        },
        Err(e) => Err(e),
    }
}

/// Checks a visitor token now: the answer [`verify_token_at`] gives at the current time.
pub fn verify_token(secret: &str, token: &str) -> (r: Result<Claims, String>)
    ensures
        exists|now: i64| #[trigger] token_accepted_at(secret@, token@, now) == (r is Ok),
        r matches Ok(c) ==> jwt_claims(secret@, token@) == Some((c.sub@, c.exp, c.iat)),
{
    let now = now_secs();
    let r = verify_token_at(secret, token, now);
    assert(token_accepted_at(secret@, token@, now) == (r is Ok));
    r
}

/// 32 bytes from the thread-local generator of `rand`.
#[verifier::external_body]
fn random_bytes() -> [u8; 32] {
    let mut buf = [0u8; 32];
    rand::RngCore::fill_bytes(&mut rand::thread_rng(), &mut buf);
    buf
}

/// A fresh random JWT secret: 32 random bytes as 64 lower-case hex digits.
pub fn random_secret() -> (r: String)
    ensures
        exists|b: Seq<u8>| b.len() == 32 && r@ == hex_lower(b),
        r@.len() == 64,
{
    let buf = random_bytes();
    let s = hex_string(&buf);
    proof {
        lemma_hex_lower_len(buf@);
    }
    s
}

} // verus!
