//! The signed assertion with which a service account asks Zitadel for an
//! access token.
use vstd::prelude::*;

use jsonwebtoken::{encode, Algorithm, EncodingKey, Header};
use serde_json::Value;

verus! {

/// Whether `key_pem` holds an RSA private key in PEM form, as
/// `jsonwebtoken::EncodingKey::from_rsa_pem` reads it.
pub uninterp spec fn spec_is_rsa_key(key_pem: Seq<char>) -> bool;

/// The RS256-signed JWT (compact form) that `jsonwebtoken::encode` makes with
/// the key `key_pem`, a header with the key id `key_id`, and the claims `aud`
/// (a one-element array), `sub` and `iss` (both `user_id`), `exp` and `iat`.
pub uninterp spec fn spec_rs256_assertion(
    key_pem: Seq<char>,
    key_id: Seq<char>,
    aud: Seq<char>,
    user_id: Seq<char>,
    exp: int,
    iat: int,
) -> Seq<char>;

/// Why an assertion could not be made.
#[derive(Debug, Clone, Copy, PartialEq, Eq, Structural)]
pub enum JwtError {
    /// The key is not an RSA private key in PEM form.
    Key,
    /// Signing failed.
    Sign,
    /// The expiry time does not fit in an `i64`.
    Overflow,
}

/// Signs the claims of a service account with RS256: reads the key with
/// `jsonwebtoken::EncodingKey::from_rsa_pem`, and signs with
/// `jsonwebtoken::encode` a header of algorithm RS256 with the key id
/// `key_id` and the claims `aud: [aud]`, `sub: user_id`, `iss: user_id`,
/// `exp`, `iat`. The claims go in as a `serde_json::Map` in that order.
///
/// Claimed: the key is refused exactly when it is not an RSA key in PEM form
/// (the reading depends on the key alone); a signed result is the named
/// function of the arguments (RS256 signatures are deterministic). Whether
/// signing a read key fails is left unsaid.
#[verifier::external_body]
fn rs256_assertion(key_pem: &str, key_id: &str, aud: &str, user_id: &str, exp: i64, iat: i64) -> (r:
    Result<String, JwtError>)
    ensures
        match r {
            Ok(s) => spec_is_rsa_key(key_pem@) && s@ == spec_rs256_assertion(
                key_pem@,
                key_id@,
                aud@,
                user_id@,
                exp as int,
                iat as int,
            ),
            Err(JwtError::Key) => !spec_is_rsa_key(key_pem@),
            Err(JwtError::Sign) => spec_is_rsa_key(key_pem@),
            Err(JwtError::Overflow) => false,
        },
{
    let key = EncodingKey::from_rsa_pem(key_pem.as_bytes()).map_err(|_| JwtError::Key)?;
    let mut header = Header::new(Algorithm::RS256);
    header.kid = Some(key_id.to_string());
    let claims = serde_json::Map::from_iter([
        ("aud".to_string(), Value::from(vec![aud])),
        ("sub".to_string(), Value::from(user_id)),
        ("iss".to_string(), Value::from(user_id)),
        ("exp".to_string(), Value::from(exp)),
        ("iat".to_string(), Value::from(iat)),
    ]);
    encode(&header, &claims, &key).map_err(|_| JwtError::Sign)
}

/// The assertion of the service account `user_id` with the key `key_pem`
/// (key id `key_id`) for the audience `aud`, issued at `now` (seconds since
/// the epoch) and valid for 60 seconds.
pub fn service_account_assertion(key_pem: &str, key_id: &str, user_id: &str, aud: &str, now: i64) -> (r:
    Result<String, JwtError>)
    ensures
        (now > i64::MAX - 60) <==> (r == Err::<String, JwtError>(JwtError::Overflow)),
        now <= i64::MAX - 60 ==> ((r == Err::<String, JwtError>(JwtError::Key)) <==> !spec_is_rsa_key(
            key_pem@,
        )),
        match r {
            Ok(s) => s@ == spec_rs256_assertion(
                key_pem@,
                key_id@,
                aud@,
                user_id@,
                now + 60,
                now as int,
            ),
            _ => true,
        },
{
    if now > i64::MAX - 60 {
        return Err(JwtError::Overflow);
    }
    rs256_assertion(key_pem, key_id, aud, user_id, now + 60, now)
}

} // verus!
