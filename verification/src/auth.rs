//! The credential and session-token service.
//!
//! A token is three dot-separated segments: the base64url encoding of a fixed
//! header, the base64url encoding of a canonical claims rendering
//! ([`crate::claims`]), and an HMAC-SHA256 signature over the first two
//! segments computed from the configured secret. Issuance and validation are
//! verified against that shape; the outside primitives (base64url, the MAC,
//! the password hash, the clock and the id generator) stand behind trusted
//! wrappers whose contracts name their results.

use vstd::prelude::*;

use argon2::password_hash::{rand_core::OsRng, PasswordHash, PasswordHasher, PasswordVerifier, SaltString};
use base64::Engine;

use crate::claims::{
    access_json, access_json_str, claims_ints_fit, lemma_access_refresh_disjoint,
    lemma_parse_access_complete, lemma_parse_access_sound, lemma_parse_refresh_complete,
    lemma_parse_refresh_sound, parse_access, parse_access_str, parse_refresh, parse_refresh_str,
    refresh_ints_fit, refresh_json, refresh_json_str, Claims, ClaimsV, RefreshClaims,
    RefreshClaimsV,
};
use crate::errors::AuthError;

verus! {

// ---------------------------------------------------------------------------
// Names for outside results
// ---------------------------------------------------------------------------

/// Base64url (no padding) encoding of the UTF-8 bytes of a string.
pub uninterp spec fn b64url_of(s: Seq<char>) -> Seq<char>;

/// Base64url (no padding) encoding of the HMAC-SHA256 of the UTF-8 bytes of
/// `msg` under the UTF-8 bytes of `secret`.
pub uninterp spec fn hs256_b64_of(msg: Seq<char>, secret: Seq<char>) -> Seq<char>;

/// Whether Argon2 verification of `password` against the PHC-encoded
/// `stored_hash` succeeds.
pub uninterp spec fn argon2_matches(password: Seq<char>, stored_hash: Seq<char>) -> bool;

/// Whether a stored hash parses as a PHC-encoded password hash.
pub uninterp spec fn phc_parses(stored_hash: Seq<char>) -> bool;

pub open spec fn dotfree(s: Seq<char>) -> bool {
    forall|k: int| 0 <= k < s.len() ==> s[k] != '.'
}

// ---------------------------------------------------------------------------
// Token shape
// ---------------------------------------------------------------------------

/// The fixed token header.
pub open spec fn header_json() -> Seq<char> {
    "{\"typ\":\"JWT\",\"alg\":\"HS256\"}"@
}

/// The signed part of a token: encoded header, a dot, encoded payload.
pub open spec fn signing_input(payload: Seq<char>) -> Seq<char> {
    b64url_of(header_json()) + seq!['.'] + b64url_of(payload)
}

/// A complete token over the given payload rendering.
pub open spec fn token_of_payload(payload: Seq<char>, secret: Seq<char>) -> Seq<char> {
    signing_input(payload) + seq!['.'] + hs256_b64_of(signing_input(payload), secret)
}

/// The three encoded segments of the token over `payload` contain no dot;
/// true of every token this module issues, since base64url uses no dot.
pub open spec fn payload_clean(payload: Seq<char>, secret: Seq<char>) -> bool {
    &&& dotfree(b64url_of(header_json()))
    &&& dotfree(b64url_of(payload))
    &&& dotfree(hs256_b64_of(signing_input(payload), secret))
}

/// The access token carrying claims `c`, signed with `secret`.
pub open spec fn access_token_of(c: ClaimsV, secret: Seq<char>) -> Seq<char> {
    token_of_payload(access_json(c), secret)
}

/// The refresh token carrying claims `c`, signed with `secret`.
pub open spec fn refresh_token_of(c: RefreshClaimsV, secret: Seq<char>) -> Seq<char> {
    token_of_payload(refresh_json(c), secret)
}

pub open spec fn access_enc_clean(c: ClaimsV, secret: Seq<char>) -> bool {
    payload_clean(access_json(c), secret) && claims_ints_fit(c)
}

pub open spec fn refresh_enc_clean(c: RefreshClaimsV, secret: Seq<char>) -> bool {
    payload_clean(refresh_json(c), secret) && refresh_ints_fit(c)
}

pub open spec fn access_claims_for(
    user_id: Seq<char>,
    email: Seq<char>,
    role: Seq<char>,
    iat: int,
    exp: int,
    jti: Seq<char>,
) -> ClaimsV {
    ClaimsV { sub: user_id, user_id, email, role, exp, iat, jti }
}

pub open spec fn refresh_claims_for(
    user_id: Seq<char>,
    iat: int,
    exp: int,
    jti: Seq<char>,
) -> RefreshClaimsV {
    RefreshClaimsV { sub: user_id, user_id, exp, iat, jti }
}

// ---------------------------------------------------------------------------
// Trusted wrappers around the outside primitives
// ---------------------------------------------------------------------------

/// Relies on `base64::engine::general_purpose::URL_SAFE_NO_PAD.encode`: the
/// canonical unpadded base64url encoding of the input bytes, over an
/// alphabet (`A-Z a-z 0-9 - _`) that contains no dot.
#[verifier::external_body]
fn b64url_encode_str(s: &str) -> (r: String)
    ensures
        r@ == b64url_of(s@),
        dotfree(r@),
{
    base64::engine::general_purpose::URL_SAFE_NO_PAD.encode(s.as_bytes())
}

/// Relies on `base64::engine::general_purpose::URL_SAFE_NO_PAD.decode` and
/// `String::from_utf8`: with this engine, decoding requires canonical
/// unpadded input with no trailing bits, so it succeeds exactly on the range
/// of the encoding; both steps are injective, so the preimage is unique.
#[verifier::external_body]
fn b64url_decode_str(s: &str) -> (r: Option<String>)
    ensures
        r is Some ==> s@ == b64url_of(r->0@) && (forall|u: Seq<char>|
            s@ == b64url_of(u) ==> u == r->0@),
        r is None ==> (forall|u: Seq<char>| s@ != b64url_of(u)),
{
    match base64::engine::general_purpose::URL_SAFE_NO_PAD.decode(s.as_bytes()) {
        Ok(bytes) => String::from_utf8(bytes).ok(),
        Err(_) => None,
    }
}

/// Relies on `jsonwebtoken::crypto::sign` with `Algorithm::HS256` and a key
/// from `EncodingKey::from_secret`: the base64url (no padding, dot-free
/// alphabet) encoding of the HMAC-SHA256 of the message, a pure function of
/// message and secret. For an HMAC key of any length the provider's signer
/// cannot fail, so the unwrap never panics. This holds under the compiled-in
/// `rust_crypto` provider; the library assumes no other crypto provider has
/// been installed in the process.
#[verifier::external_body]
fn hs256_sign(msg: &str, secret: &str) -> (r: String)
    ensures
        r@ == hs256_b64_of(msg@, secret@),
        dotfree(r@),
{
    jsonwebtoken::crypto::sign(
        msg.as_bytes(),
        &jsonwebtoken::EncodingKey::from_secret(secret.as_bytes()),
        jsonwebtoken::Algorithm::HS256,
    ).unwrap()
}

/// Relies on `chrono::Utc::now`: seconds since the Unix epoch. Nothing can
/// be promised of the clock's value.
#[verifier::external_body]
fn now_unix() -> (r: i64) {
    chrono::Utc::now().timestamp()
}

/// Relies on `uuid::Uuid::new_v4` and its `Display` form: a fresh random
/// identifier rendered as 36 hyphenated hexadecimal characters. Nothing can
/// be promised of which value comes back; a failing OS randomness source
/// aborts, like exhaustion of any other system resource.
#[verifier::external_body]
fn new_token_id() -> (r: String)
    ensures
        r@.len() == 36,
{
    uuid::Uuid::new_v4().to_string()
}

/// Relies on `argon2::Argon2::hash_password` with a salt from
/// `SaltString::generate(OsRng)`: on success the returned PHC string parses
/// back (`PasswordHash::new` of `to_string` round-trips) and verification of
/// the same password against it succeeds. A failing OS randomness source
/// aborts, like exhaustion of any other system resource.
#[verifier::external_body]
fn argon2_hash(password: &str) -> (r: Option<String>)
    ensures
        r is Some ==> argon2_matches(password@, r->0@) && phc_parses(r->0@),
{
    let salt = SaltString::generate(&mut OsRng);
    argon2::Argon2::default().hash_password(password.as_bytes(), &salt).ok().map(|h| h.to_string())
}

/// Relies on `argon2::password_hash::PasswordHash::new` (fails exactly when
/// the stored hash is not a PHC string) and `Argon2::verify_password`
/// (succeeds exactly when the password matches, recomputed with the salt and
/// parameters taken from the hash itself).
#[verifier::external_body]
fn argon2_check(password: &str, stored_hash: &str) -> (r: Option<bool>)
    ensures
        r is Some <==> phc_parses(stored_hash@),
        r is Some ==> r->0 == argon2_matches(password@, stored_hash@),
{
    match PasswordHash::new(stored_hash) {
        Ok(parsed) => Some(
            argon2::Argon2::default().verify_password(password.as_bytes(), &parsed).is_ok(),
        ),
        Err(_) => None,
    }
}

// ---------------------------------------------------------------------------
// Dot structure of a token
// ---------------------------------------------------------------------------

/// `s` has dots exactly at positions `a` and `b`.
pub open spec fn exactly_two_dots(s: Seq<char>, a: int, b: int) -> bool {
    &&& 0 <= a < b < s.len()
    &&& s[a] == '.'
    &&& s[b] == '.'
    &&& forall|k: int| 0 <= k < s.len() && k != a && k != b ==> s[k] != '.'
}

/// A token over a clean payload has dots exactly at its two separators.
proof fn lemma_token_dots(payload: Seq<char>, secret: Seq<char>)
    requires
        payload_clean(payload, secret),
    ensures
        exactly_two_dots(
            token_of_payload(payload, secret),
            b64url_of(header_json()).len() as int,
            b64url_of(header_json()).len() + 1 + b64url_of(payload).len() as int,
        ),
{
    let x = b64url_of(header_json());
    let y = b64url_of(payload);
    let z = hs256_b64_of(signing_input(payload), secret);
    let t = token_of_payload(payload, secret);
    let a = x.len() as int;
    let b: int = x.len() + 1 + y.len() as int;
    assert(t.len() == x.len() + y.len() + z.len() + 2);
    assert(t[a] == '.');
    assert(t[b] == '.');
    assert forall|k: int| 0 <= k < t.len() && k != a && k != b implies t[k] != '.' by {
        if k < a {
            assert(t[k] == x[k]);
        } else if k < b {
            assert(t[k] == y[k - a - 1]);
        } else {
            assert(t[k] == z[k - b - 1]);
        }
    }
}

/// Given where the two dots of a token sit, its three segments are the
/// encoded header, the encoded payload, and the signature.
proof fn lemma_token_structure(
    payload: Seq<char>,
    secret: Seq<char>,
    t: Seq<char>,
    d1: int,
    d2: int,
)
    requires
        payload_clean(payload, secret),
        t == token_of_payload(payload, secret),
        0 <= d1 < d2 < t.len(),
        t[d1] == '.',
        t[d2] == '.',
    ensures
        d1 == b64url_of(header_json()).len() as int,
        d2 == b64url_of(header_json()).len() + 1 + b64url_of(payload).len() as int,
        t.subrange(0, d1) == b64url_of(header_json()),
        t.subrange(d1 + 1, d2) == b64url_of(payload),
        t.subrange(d2 + 1, t.len() as int) == hs256_b64_of(signing_input(payload), secret),
{
    let x = b64url_of(header_json());
    let y = b64url_of(payload);
    let z = hs256_b64_of(signing_input(payload), secret);
    let a = x.len() as int;
    let b: int = x.len() + 1 + y.len() as int;
    lemma_token_dots(payload, secret);
    assert(d1 == a || d1 == b);
    assert(d2 == a || d2 == b);
    assert(a < b);
    assert(d1 == a && d2 == b);
    assert(t.subrange(0, d1) =~= x);
    assert(t.subrange(d1 + 1, d2) =~= y);
    assert(t.subrange(d2 + 1, t.len() as int) =~= z);
}

/// Finds the two dots of a well-formed token, or reports that the count of
/// dots is not two.
fn split_token(token: &str) -> (r: Option<(usize, usize)>)
    ensures
        match r {
            Some(p) => exactly_two_dots(token@, p.0 as int, p.1 as int),
            None => forall|a: int, b: int| !exactly_two_dots(token@, a, b),
        },
{
    let n = token.unicode_len();
    let mut i: usize = 0;
    let mut count: usize = 0;
    let mut d1: usize = 0;
    let mut d2: usize = 0;
    let mut d3: usize = 0;
    while i < n
        invariant
            0 <= i <= n,
            n == token@.len(),
            count == 0 ==> forall|k: int| 0 <= k < i ==> token@[k] != '.',
            count >= 1 ==> d1 < i && token@[d1 as int] == '.' && (forall|k: int|
                0 <= k < d1 ==> token@[k] != '.'),
            count == 1 ==> forall|k: int| d1 < k < i ==> token@[k] != '.',
            count >= 2 ==> d1 < d2 < i && token@[d2 as int] == '.' && (forall|k: int|
                d1 < k < d2 ==> token@[k] != '.'),
            count == 2 ==> forall|k: int| d2 < k < i ==> token@[k] != '.',
            count >= 3 ==> d2 < d3 < i && token@[d3 as int] == '.',
            count <= 3,
        decreases n - i,
    {
        let c = token.get_char(i);
        if c == '.' {
            if count == 0 {
                d1 = i;
                count = 1;
            } else if count == 1 {
                d2 = i;
                count = 2;
            } else if count == 2 {
                d3 = i;
                count = 3;
            }
        }
        i += 1;
    }
    if count == 2 {
        Some((d1, d2))
    } else {
        proof {
            assert forall|a: int, b: int| !exactly_two_dots(token@, a, b) by {
                if exactly_two_dots(token@, a, b) {
                    if count == 0 {
                        assert(token@[a] != '.');
                    } else if count == 1 {
                        assert(a == d1 && b == d1);
                    } else {
                        assert(d1 != d2 && d2 != d3 && d1 != d3);
                        assert(d1 as int == a || d1 as int == b);
                        assert(d2 as int == a || d2 as int == b);
                        assert(d3 as int == a || d3 as int == b);
                    }
                }
            }
        }
        None
    }
}

/// Character-wise string equality.
fn str_eq_chars(a: &str, b: &str) -> (r: bool)
    ensures
        r == (a@ == b@),
{
    let n = a.unicode_len();
    let m = b.unicode_len();
    if n != m {
        return false;
    }
    let mut i: usize = 0;
    while i < n
        invariant
            0 <= i <= n,
            n == a@.len(),
            n == b@.len(),
            forall|k: int| 0 <= k < i ==> a@[k] == b@[k],
        decreases n - i,
    {
        if a.get_char(i) != b.get_char(i) {
            return false;
        }
        i += 1;
    }
    proof {
        assert(a@ =~= b@);
    }
    true
}

/// Builds the token over an already-rendered payload.
fn seal_payload(payload: &str, secret: &str) -> (t: String)
    ensures
        t@ == token_of_payload(payload@, secret@),
        payload_clean(payload@, secret@),
{
    let h64 = b64url_encode_str("{\"typ\":\"JWT\",\"alg\":\"HS256\"}");
    let p64 = b64url_encode_str(payload);
    let mut si = h64;
    si.append(".");
    si.append(p64.as_str());
    proof {
        reveal_strlit(".");
        assert("."@ =~= seq!['.']);
        assert(si@ == signing_input(payload@));
    }
    let sig = hs256_sign(si.as_str(), secret);
    let mut t = si;
    t.append(".");
    t.append(sig.as_str());
    t
}

// ---------------------------------------------------------------------------
// The service
// ---------------------------------------------------------------------------

/// A bundled access/refresh token pair as handed to a client.
#[derive(Clone, Debug)]
pub struct TokenPair {
    pub access_token: String,
    pub refresh_token: String,
    pub token_type: String,
    pub expires_in: i64,
}

/// What [`AuthService::generate_token_pair_at`] promises of a pair issued at
/// `now`: each token encodes the given identity with the right window and
/// some fresh 36-character token id, and its segments are dot-free.
pub open spec fn pair_issued(
    pair: TokenPair,
    user_id: Seq<char>,
    email: Seq<char>,
    role: Seq<char>,
    now: int,
    access_ttl: int,
    refresh_ttl: int,
    secret: Seq<char>,
) -> bool {
    &&& exists|aj: Seq<char>|
        {
            let c = #[trigger] access_claims_for(user_id, email, role, now, now + access_ttl, aj);
            pair.access_token@ == access_token_of(c, secret) && access_enc_clean(c, secret)
                && aj.len() == 36
        }
    &&& exists|rj: Seq<char>|
        {
            let c = #[trigger] refresh_claims_for(user_id, now, now + refresh_ttl, rj);
            pair.refresh_token@ == refresh_token_of(c, secret) && refresh_enc_clean(c, secret)
                && rj.len() == 36
        }
    &&& pair.token_type@ == "Bearer"@
    &&& pair.expires_in == access_ttl
}

/// Issues and validates bearer tokens and hashes credentials, from an opaque
/// signing secret and the two configured lifetimes.
pub struct AuthService {
    pub jwt_secret: String,
    pub access_token_expiry: i64,
    pub refresh_token_expiry: i64,
}

impl AuthService {
    /// A service over the given secret and token lifetimes in seconds.
    pub fn new(jwt_secret: String, access_token_expiry: i64, refresh_token_expiry: i64) -> (r:
        Self)
        ensures
            r.jwt_secret@ == jwt_secret@,
            r.access_token_expiry == access_token_expiry,
            r.refresh_token_expiry == refresh_token_expiry,
    {
        Self { jwt_secret, access_token_expiry, refresh_token_expiry }
    }

    /// Hashes a password with a fresh random salt into a self-describing
    /// stored form; the result verifies against the same password. A failure
    /// of the hashing primitive is an internal error.
    pub fn hash_password(&self, password: &str) -> (r: Result<String, AuthError>)
        ensures
            r is Ok ==> argon2_matches(password@, r->Ok_0@) && phc_parses(r->Ok_0@),
            r is Err ==> r->Err_0 == AuthError::Internal,
    {
        match argon2_hash(password) {
            Some(h) => Ok(h),
            None => Err(AuthError::Internal),
        }
    }

    /// Verifies a password against a stored hash. A stored hash that does
    /// not parse is a data-integrity problem and an internal error; a
    /// mismatched password is the normal `false` result, never an error.
    pub fn verify_password(&self, password: &str, hash: &str) -> (r: Result<bool, AuthError>)
        ensures
            r is Ok <==> phc_parses(hash@),
            r is Ok ==> r->Ok_0 == argon2_matches(password@, hash@),
            r is Err ==> r->Err_0 == AuthError::Internal,
    {
        match argon2_check(password, hash) {
            Some(b) => Ok(b),
            None => Err(AuthError::Internal),
        }
    }

    /// Issues an access/refresh pair as of time `now` (seconds since the
    /// epoch): both tokens are bound to the identity, the access token
    /// expires `access_token_expiry` seconds after `now`, the refresh token
    /// `refresh_token_expiry` seconds after. Fails only when an expiry does
    /// not fit in 64 bits, which is a configuration error.
    pub fn generate_token_pair_at(
        &self,
        user_id: &str,
        email: &str,
        role: &str,
        now: i64,
    ) -> (r: Result<TokenPair, AuthError>)
        ensures
            r is Ok <==> (i64::MIN <= now + self.access_token_expiry <= i64::MAX && i64::MIN <= now
                + self.refresh_token_expiry <= i64::MAX),
            r is Ok ==> pair_issued(
                r->Ok_0,
                user_id@,
                email@,
                role@,
                now as int,
                self.access_token_expiry as int,
                self.refresh_token_expiry as int,
                self.jwt_secret@,
            ),
            r is Err ==> r->Err_0 == AuthError::Internal,
    {
        let access_exp = match checked_add_i64(now, self.access_token_expiry) {
            Some(v) => v,
            None => {
                return Err(AuthError::Internal);
            },
        };
        let refresh_exp = match checked_add_i64(now, self.refresh_token_expiry) {
            Some(v) => v,
            None => {
                return Err(AuthError::Internal);
            },
        };
        let access_claims = Claims {
            sub: user_id.to_owned(),
            user_id: user_id.to_owned(),
            email: email.to_owned(),
            role: role.to_owned(),
            exp: access_exp,
            iat: now,
            jti: new_token_id(),
        };
        let refresh_claims = RefreshClaims {
            sub: user_id.to_owned(),
            user_id: user_id.to_owned(),
            exp: refresh_exp,
            iat: now,
            jti: new_token_id(),
        };
        let access_payload = access_json_str(&access_claims);
        let refresh_payload = refresh_json_str(&refresh_claims);
        let access_token = seal_payload(access_payload.as_str(), self.jwt_secret.as_str());
        let refresh_token = seal_payload(refresh_payload.as_str(), self.jwt_secret.as_str());
        let pair = TokenPair {
            access_token,
            refresh_token,
            token_type: "Bearer".to_owned(),
            expires_in: self.access_token_expiry,
        };
        proof {
            let c = access_claims@;
            assert(c == access_claims_for(
                user_id@,
                email@,
                role@,
                now as int,
                now + self.access_token_expiry,
                access_claims.jti@,
            ));
            assert(pair.access_token@ == access_token_of(c, self.jwt_secret@));
            let rc = refresh_claims@;
            assert(rc == refresh_claims_for(
                user_id@,
                now as int,
                now + self.refresh_token_expiry,
                refresh_claims.jti@,
            ));
            assert(pair.refresh_token@ == refresh_token_of(rc, self.jwt_secret@));
        }
        Ok(pair)
    }

    /// Issues a pair as of the current clock time.
    pub fn generate_token_pair(&self, user_id: &str, email: &str, role: &str) -> (r: Result<
        TokenPair,
        AuthError,
    >)
        ensures
            r is Ok ==> exists|now: i64|
                pair_issued(
                    #[trigger] spec_pair_at(r->Ok_0, now),
                    user_id@,
                    email@,
                    role@,
                    now as int,
                    self.access_token_expiry as int,
                    self.refresh_token_expiry as int,
                    self.jwt_secret@,
                ),
            r is Err ==> r->Err_0 == AuthError::Internal,
    {
        let now = now_unix();
        let r = self.generate_token_pair_at(user_id, email, role, now);
        proof {
            if r is Ok {
                assert(spec_pair_at(r->Ok_0, now) == r->Ok_0);
            }
        }
        r
    }

    /// Validates an access token as of time `now`: the exact tokens accepted
    /// are those this service issues with its secret, whose expiry is still
    /// in the future. A refresh token is never accepted here, whatever its
    /// expiry. Every rejection is the uniform authentication error.
    pub fn validate_access_token_at(&self, token: &str, now: i64) -> (r: Result<
        Claims,
        AuthError,
    >)
        ensures
            r is Ok ==> token@ == access_token_of(r->Ok_0@, self.jwt_secret@) && r->Ok_0@.exp > now
                && access_enc_clean(r->Ok_0@, self.jwt_secret@),
            forall|c: ClaimsV|
                (access_enc_clean(c, self.jwt_secret@) && token@ == access_token_of(
                    c,
                    self.jwt_secret@,
                ) && c.exp > now) ==> r is Ok && r->Ok_0@ == c,
            forall|c: ClaimsV|
                (access_enc_clean(c, self.jwt_secret@) && token@ == access_token_of(
                    c,
                    self.jwt_secret@,
                ) && c.exp <= now) ==> r is Err,
            forall|c: RefreshClaimsV|
                (refresh_enc_clean(c, self.jwt_secret@) && token@ == refresh_token_of(
                    c,
                    self.jwt_secret@,
                )) ==> r is Err,
            r is Err ==> r->Err_0 == AuthError::Authentication,
    {
        let ghost secret = self.jwt_secret@;
        let (d1, d2) = match split_token(token) {
            Some(p) => p,
            None => {
                proof {
                    assert forall|c: ClaimsV|
                        !(access_enc_clean(c, secret) && token@ == access_token_of(c, secret)
                            && c.exp > now) by {
                        if access_enc_clean(c, secret) && token@ == access_token_of(c, secret) {
                            lemma_token_dots(access_json(c), secret);
                        }
                    }
                }
                return Err(AuthError::Authentication);
            },
        };
        let n = token.unicode_len();
        let seg1 = token.substring_char(0, d1);
        let seg2 = token.substring_char(d1 + 1, d2);
        let seg3 = token.substring_char(d2 + 1, n);
        let h64 = b64url_encode_str("{\"typ\":\"JWT\",\"alg\":\"HS256\"}");
        if !str_eq_chars(seg1, h64.as_str()) {
            proof {
                assert forall|c: ClaimsV|
                    !(access_enc_clean(c, secret) && token@ == access_token_of(c, secret) && c.exp
                        > now) by {
                    if access_enc_clean(c, secret) && token@ == access_token_of(c, secret) {
                        lemma_token_structure(access_json(c), secret, token@, d1 as int, d2 as int);
                    }
                }
            }
            return Err(AuthError::Authentication);
        }
        let mut si = seg1.to_owned();
        si.append(".");
        si.append(seg2);
        proof {
            reveal_strlit(".");
            assert("."@ =~= seq!['.']);
        }
        let expected_sig = hs256_sign(si.as_str(), self.jwt_secret.as_str());
        if !str_eq_chars(seg3, expected_sig.as_str()) {
            proof {
                assert forall|c: ClaimsV|
                    !(access_enc_clean(c, secret) && token@ == access_token_of(c, secret) && c.exp
                        > now) by {
                    if access_enc_clean(c, secret) && token@ == access_token_of(c, secret) {
                        lemma_token_structure(access_json(c), secret, token@, d1 as int, d2 as int);
                        assert(si@ == signing_input(access_json(c)));
                    }
                }
            }
            return Err(AuthError::Authentication);
        }
        let payload = match b64url_decode_str(seg2) {
            Some(p) => p,
            None => {
                proof {
                    assert forall|c: ClaimsV|
                        !(access_enc_clean(c, secret) && token@ == access_token_of(c, secret)
                            && c.exp > now) by {
                        if access_enc_clean(c, secret) && token@ == access_token_of(c, secret) {
                            lemma_token_structure(
                                access_json(c),
                                secret,
                                token@,
                                d1 as int,
                                d2 as int,
                            );
                        }
                    }
                }
                return Err(AuthError::Authentication);
            },
        };
        let claims = match parse_access_str(payload.as_str()) {
            Some(c0) => c0,
            None => {
                proof {
                    assert forall|c: ClaimsV|
                        !(access_enc_clean(c, secret) && token@ == access_token_of(c, secret)
                            && c.exp > now) by {
                        if access_enc_clean(c, secret) && token@ == access_token_of(c, secret) {
                            lemma_token_structure(
                                access_json(c),
                                secret,
                                token@,
                                d1 as int,
                                d2 as int,
                            );
                            assert(payload@ == access_json(c));
                            lemma_parse_access_complete(c);
                        }
                    }
                }
                return Err(AuthError::Authentication);
            },
        };
        if now >= claims.exp {
            proof {
                assert forall|c: ClaimsV|
                    !(access_enc_clean(c, secret) && token@ == access_token_of(c, secret) && c.exp
                        > now) by {
                    if access_enc_clean(c, secret) && token@ == access_token_of(c, secret) && c.exp
                        > now {
                        lemma_token_structure(access_json(c), secret, token@, d1 as int, d2 as int);
                        assert(payload@ == access_json(c));
                        lemma_parse_access_complete(c);
                        assert(claims@ == c);
                    }
                }
            }
            return Err(AuthError::Authentication);
        }
        proof {
            lemma_parse_access_sound(payload@);
            assert(payload@ == access_json(claims@));
            assert(token@ =~= token@.subrange(0, d1 as int) + seq!['.'] + token@.subrange(
                d1 + 1,
                d2 as int,
            ) + seq!['.'] + token@.subrange(d2 + 1, token@.len() as int));
            assert(si@ == signing_input(access_json(claims@)));
            assert(seg3@ == hs256_b64_of(signing_input(access_json(claims@)), secret));
            assert(token@ == access_token_of(claims@, secret));
            assert(dotfree(b64url_of(header_json()))) by {
                assert(seg1@ == b64url_of(header_json()));
                assert(forall|k: int|
                    0 <= k < seg1@.len() ==> seg1@[k] == token@[k] && token@[k] != '.');
            }
            assert(dotfree(b64url_of(access_json(claims@)))) by {
                assert(seg2@ == b64url_of(access_json(claims@)));
                assert(forall|k: int|
                    0 <= k < seg2@.len() ==> seg2@[k] == token@[d1 + 1 + k] && token@[d1 + 1 + k]
                        != '.');
            }
            assert(dotfree(hs256_b64_of(signing_input(access_json(claims@)), secret))) by {
                assert(seg3@ == hs256_b64_of(signing_input(access_json(claims@)), secret));
                assert(forall|k: int|
                    0 <= k < seg3@.len() ==> seg3@[k] == token@[d2 + 1 + k] && token@[d2 + 1 + k]
                        != '.');
            }
            // the tokens this returns claims for can never be refresh tokens
            assert forall|c: RefreshClaimsV|
                !(refresh_enc_clean(c, secret) && token@ == refresh_token_of(c, secret)) by {
                if refresh_enc_clean(c, secret) && token@ == refresh_token_of(c, secret) {
                    lemma_token_structure(refresh_json(c), secret, token@, d1 as int, d2 as int);
                    assert(payload@ == refresh_json(c));
                    lemma_access_refresh_disjoint(claims@, c);
                }
            }
            // and each accepted token determines its claims, so no expired
            // claim set encodes to it either
            assert forall|c: ClaimsV|
                (access_enc_clean(c, secret) && token@ == access_token_of(c, secret)) implies (
            claims@ == c && c.exp > now) by {
                lemma_token_structure(access_json(c), secret, token@, d1 as int, d2 as int);
                assert(payload@ == access_json(c));
                lemma_parse_access_complete(c);
            }
        }
        Ok(claims)
    }

    /// Validates a refresh token as of time `now`; the mirror image of
    /// [`Self::validate_access_token_at`], and an access token is never
    /// accepted here.
    pub fn validate_refresh_token_at(&self, token: &str, now: i64) -> (r: Result<
        RefreshClaims,
        AuthError,
    >)
        ensures
            r is Ok ==> token@ == refresh_token_of(r->Ok_0@, self.jwt_secret@) && r->Ok_0@.exp
                > now && refresh_enc_clean(r->Ok_0@, self.jwt_secret@),
            forall|c: RefreshClaimsV|
                (refresh_enc_clean(c, self.jwt_secret@) && token@ == refresh_token_of(
                    c,
                    self.jwt_secret@,
                ) && c.exp > now) ==> r is Ok && r->Ok_0@ == c,
            forall|c: RefreshClaimsV|
                (refresh_enc_clean(c, self.jwt_secret@) && token@ == refresh_token_of(
                    c,
                    self.jwt_secret@,
                ) && c.exp <= now) ==> r is Err,
            forall|c: ClaimsV|
                (access_enc_clean(c, self.jwt_secret@) && token@ == access_token_of(
                    c,
                    self.jwt_secret@,
                )) ==> r is Err,
            r is Err ==> r->Err_0 == AuthError::Authentication,
    {
        let ghost secret = self.jwt_secret@;
        let (d1, d2) = match split_token(token) {
            Some(p) => p,
            None => {
                proof {
                    assert forall|c: RefreshClaimsV|
                        !(refresh_enc_clean(c, secret) && token@ == refresh_token_of(c, secret)
                            && c.exp > now) by {
                        if refresh_enc_clean(c, secret) && token@ == refresh_token_of(c, secret) {
                            lemma_token_dots(refresh_json(c), secret);
                        }
                    }
                }
                return Err(AuthError::Authentication);
            },
        };
        let n = token.unicode_len();
        let seg1 = token.substring_char(0, d1);
        let seg2 = token.substring_char(d1 + 1, d2);
        let seg3 = token.substring_char(d2 + 1, n);
        let h64 = b64url_encode_str("{\"typ\":\"JWT\",\"alg\":\"HS256\"}");
        if !str_eq_chars(seg1, h64.as_str()) {
            proof {
                assert forall|c: RefreshClaimsV|
                    !(refresh_enc_clean(c, secret) && token@ == refresh_token_of(c, secret) && c.exp
                        > now) by {
                    if refresh_enc_clean(c, secret) && token@ == refresh_token_of(c, secret) {
                        lemma_token_structure(
                            refresh_json(c),
                            secret,
                            token@,
                            d1 as int,
                            d2 as int,
                        );
                    }
                }
            }
            return Err(AuthError::Authentication);
        }
        let mut si = seg1.to_owned();
        si.append(".");
        si.append(seg2);
        proof {
            reveal_strlit(".");
            assert("."@ =~= seq!['.']);
        }
        let expected_sig = hs256_sign(si.as_str(), self.jwt_secret.as_str());
        if !str_eq_chars(seg3, expected_sig.as_str()) {
            proof {
                assert forall|c: RefreshClaimsV|
                    !(refresh_enc_clean(c, secret) && token@ == refresh_token_of(c, secret) && c.exp
                        > now) by {
                    if refresh_enc_clean(c, secret) && token@ == refresh_token_of(c, secret) {
                        lemma_token_structure(
                            refresh_json(c),
                            secret,
                            token@,
                            d1 as int,
                            d2 as int,
                        );
                        assert(si@ == signing_input(refresh_json(c)));
                    }
                }
            }
            return Err(AuthError::Authentication);
        }
        let payload = match b64url_decode_str(seg2) {
            Some(p) => p,
            None => {
                proof {
                    assert forall|c: RefreshClaimsV|
                        !(refresh_enc_clean(c, secret) && token@ == refresh_token_of(c, secret)
                            && c.exp > now) by {
                        if refresh_enc_clean(c, secret) && token@ == refresh_token_of(c, secret) {
                            lemma_token_structure(
                                refresh_json(c),
                                secret,
                                token@,
                                d1 as int,
                                d2 as int,
                            );
                        }
                    }
                }
                return Err(AuthError::Authentication);
            },
        };
        let claims = match parse_refresh_str(payload.as_str()) {
            Some(c0) => c0,
            None => {
                proof {
                    assert forall|c: RefreshClaimsV|
                        !(refresh_enc_clean(c, secret) && token@ == refresh_token_of(c, secret)
                            && c.exp > now) by {
                        if refresh_enc_clean(c, secret) && token@ == refresh_token_of(c, secret) {
                            lemma_token_structure(
                                refresh_json(c),
                                secret,
                                token@,
                                d1 as int,
                                d2 as int,
                            );
                            assert(payload@ == refresh_json(c));
                            lemma_parse_refresh_complete(c);
                        }
                    }
                }
                return Err(AuthError::Authentication);
            },
        };
        if now >= claims.exp {
            proof {
                assert forall|c: RefreshClaimsV|
                    !(refresh_enc_clean(c, secret) && token@ == refresh_token_of(c, secret) && c.exp
                        > now) by {
                    if refresh_enc_clean(c, secret) && token@ == refresh_token_of(c, secret)
                        && c.exp > now {
                        lemma_token_structure(
                            refresh_json(c),
                            secret,
                            token@,
                            d1 as int,
                            d2 as int,
                        );
                        assert(payload@ == refresh_json(c));
                        lemma_parse_refresh_complete(c);
                        assert(claims@ == c);
                    }
                }
            }
            return Err(AuthError::Authentication);
        }
        proof {
            lemma_parse_refresh_sound(payload@);
            assert(payload@ == refresh_json(claims@));
            assert(token@ =~= token@.subrange(0, d1 as int) + seq!['.'] + token@.subrange(
                d1 + 1,
                d2 as int,
            ) + seq!['.'] + token@.subrange(d2 + 1, token@.len() as int));
            assert(si@ == signing_input(refresh_json(claims@)));
            assert(seg3@ == hs256_b64_of(signing_input(refresh_json(claims@)), secret));
            assert(token@ == refresh_token_of(claims@, secret));
            assert(dotfree(b64url_of(header_json()))) by {
                assert(seg1@ == b64url_of(header_json()));
                assert(forall|k: int|
                    0 <= k < seg1@.len() ==> seg1@[k] == token@[k] && token@[k] != '.');
            }
            assert(dotfree(b64url_of(refresh_json(claims@)))) by {
                assert(seg2@ == b64url_of(refresh_json(claims@)));
                assert(forall|k: int|
                    0 <= k < seg2@.len() ==> seg2@[k] == token@[d1 + 1 + k] && token@[d1 + 1 + k]
                        != '.');
            }
            assert(dotfree(hs256_b64_of(signing_input(refresh_json(claims@)), secret))) by {
                assert(seg3@ == hs256_b64_of(signing_input(refresh_json(claims@)), secret));
                assert(forall|k: int|
                    0 <= k < seg3@.len() ==> seg3@[k] == token@[d2 + 1 + k] && token@[d2 + 1 + k]
                        != '.');
            }
            assert forall|c: ClaimsV|
                !(access_enc_clean(c, secret) && token@ == access_token_of(c, secret)) by {
                if access_enc_clean(c, secret) && token@ == access_token_of(c, secret) {
                    lemma_token_structure(access_json(c), secret, token@, d1 as int, d2 as int);
                    assert(payload@ == access_json(c));
                    lemma_access_refresh_disjoint(c, claims@);
                }
            }
            assert forall|c: RefreshClaimsV|
                (refresh_enc_clean(c, secret) && token@ == refresh_token_of(c, secret)) implies (
            claims@ == c && c.exp > now) by {
                lemma_token_structure(refresh_json(c), secret, token@, d1 as int, d2 as int);
                assert(payload@ == refresh_json(c));
                lemma_parse_refresh_complete(c);
            }
        }
        Ok(claims)
    }

    /// Validates an access token as of the current clock time.
    pub fn validate_access_token(&self, token: &str) -> (r: Result<Claims, AuthError>)
        ensures
            r is Ok ==> token@ == access_token_of(r->Ok_0@, self.jwt_secret@) && access_enc_clean(
                r->Ok_0@,
                self.jwt_secret@,
            ),
            forall|c: RefreshClaimsV|
                (refresh_enc_clean(c, self.jwt_secret@) && token@ == refresh_token_of(
                    c,
                    self.jwt_secret@,
                )) ==> r is Err,
            r is Err ==> r->Err_0 == AuthError::Authentication,
    {
        let now = now_unix();
        self.validate_access_token_at(token, now)
    }

    /// Validates a refresh token as of the current clock time.
    pub fn validate_refresh_token(&self, token: &str) -> (r: Result<RefreshClaims, AuthError>)
        ensures
            r is Ok ==> token@ == refresh_token_of(r->Ok_0@, self.jwt_secret@)
                && refresh_enc_clean(r->Ok_0@, self.jwt_secret@),
            forall|c: ClaimsV|
                (access_enc_clean(c, self.jwt_secret@) && token@ == access_token_of(
                    c,
                    self.jwt_secret@,
                )) ==> r is Err,
            r is Err ==> r->Err_0 == AuthError::Authentication,
    {
        let now = now_unix();
        self.validate_refresh_token_at(token, now)
    }

    /// Strips the `"Bearer "` prefix, case-sensitively and with exactly one
    /// space, from an authorization header value; a format check only.
    pub fn extract_token_from_header(auth_header: &str) -> (r: Result<&str, AuthError>)
        ensures
            r is Ok <==> auth_header@.len() >= 7 && auth_header@.subrange(0, 7) =~= "Bearer "@,
            r is Ok ==> r->Ok_0@ == auth_header@.subrange(7, auth_header@.len() as int),
            r is Err ==> r->Err_0 == AuthError::Authentication,
    {
        match strip_bearer_prefix(auth_header) {
            Some(rest) => Ok(rest),
            None => Err(AuthError::Authentication),
        }
    }
}

/// Identity of a pair; gives the clock-time quantifier in
/// [`AuthService::generate_token_pair`] a shape to attach to.
pub open spec fn spec_pair_at(pair: TokenPair, now: i64) -> TokenPair {
    pair
}

/// Addition of two 64-bit integers when the sum fits.
fn checked_add_i64(a: i64, b: i64) -> (r: Option<i64>)
    ensures
        r is Some <==> i64::MIN <= a + b <= i64::MAX,
        r is Some ==> r->0 == a + b,
{
    if b >= 0 {
        if a <= i64::MAX - b {
            Some(a + b)
        } else {
            None
        }
    } else {
        if a >= i64::MIN - b {
            Some(a + b)
        } else {
            None
        }
    }
}

/// Credentials presented at login.
#[derive(Clone, Debug)]
pub struct LoginRequest {
    pub email: String,
    pub password: String,
}

/// A new registration: credentials plus an optional real name.
#[derive(Clone, Debug)]
pub struct RegisterRequest {
    pub email: String,
    pub username: String,
    pub password: String,
    pub first_name: Option<String>,
    pub last_name: Option<String>,
}

/// A refresh-flow request: the refresh token alone.
#[derive(Clone, Debug)]
pub struct RefreshTokenRequest {
    pub refresh_token: String,
}

/// The identity snapshot echoed back beside a fresh token pair.
#[derive(Clone, Debug)]
pub struct AuthUserInfo {
    pub id: String,
    pub email: String,
    pub username: String,
    pub role: String,
}

/// What a login or registration hands back: who, and the tokens.
#[derive(Clone, Debug)]
pub struct AuthResponse {
    pub user: AuthUserInfo,
    pub tokens: TokenPair,
}


/// Strips the `"Bearer "` prefix from an authorization header value.
fn strip_bearer_prefix(header: &str) -> (r: Option<&str>)
    ensures
        r is Some <==> header@.len() >= 7 && header@.subrange(0, 7) =~= "Bearer "@,
        r is Some ==> r->0@ == header@.subrange(7, header@.len() as int),
{
    proof {
        reveal_strlit("Bearer ");
    }
    let n = header.unicode_len();
    if n < 7 {
        return None;
    }
    let mut i: usize = 0;
    let prefix = "Bearer ";
    while i < 7
        invariant
            0 <= i <= 7,
            n == header@.len(),
            n >= 7,
            prefix@ =~= "Bearer "@,
            forall|k: int| 0 <= k < i ==> header@[k] == prefix@[k],
        decreases 7 - i,
    {
        proof {
            reveal_strlit("Bearer ");
        }
        if header.get_char(i) != prefix.get_char(i) {
            return None;
        }
        i += 1;
    }
    assert(header@.subrange(0, 7) =~= prefix@);
    Some(header.substring_char(7, n))
}


} // verus!
