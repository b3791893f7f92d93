use authcore::auth::AuthService;
use authcore::errors::AuthError;

const SECRET: &str = "test-signing-secret";
const NOW: i64 = 1_700_000_000;

fn service() -> AuthService {
    AuthService::new(SECRET.to_string(), 3600, 86400)
}

#[test]
fn issue_then_validate_access_roundtrip() {
    let svc = service();
    let pair = svc
        .generate_token_pair_at("user-42", "alice@example.com", "admin", NOW)
        .unwrap();
    assert_eq!(pair.token_type, "Bearer");
    assert_eq!(pair.expires_in, 3600);
    let claims = svc.validate_access_token_at(&pair.access_token, NOW).unwrap();
    assert_eq!(claims.user_id, "user-42");
    assert_eq!(claims.sub, "user-42");
    assert_eq!(claims.email, "alice@example.com");
    assert_eq!(claims.role, "admin");
    assert_eq!(claims.iat, NOW);
    assert_eq!(claims.exp - claims.iat, 3600);
    assert_eq!(claims.jti.len(), 36);
}

#[test]
fn issue_then_validate_refresh_roundtrip() {
    let svc = service();
    let pair = svc
        .generate_token_pair_at("user-42", "alice@example.com", "admin", NOW)
        .unwrap();
    let claims = svc.validate_refresh_token_at(&pair.refresh_token, NOW).unwrap();
    assert_eq!(claims.user_id, "user-42");
    assert_eq!(claims.exp - claims.iat, 86400);
}

#[test]
fn claims_with_awkward_characters_roundtrip() {
    let svc = service();
    let email = "we\"ird\\user.name@example.com";
    let role = "r\\o\"le";
    let pair = svc.generate_token_pair_at("id.with.dots", email, role, NOW).unwrap();
    let claims = svc.validate_access_token_at(&pair.access_token, NOW).unwrap();
    assert_eq!(claims.email, email);
    assert_eq!(claims.role, role);
    assert_eq!(claims.user_id, "id.with.dots");
}

#[test]
fn expired_access_token_is_rejected() {
    let svc = AuthService::new(SECRET.to_string(), 1, 86400);
    let pair = svc.generate_token_pair_at("u", "e@x.y", "user", NOW).unwrap();
    // still valid strictly before the expiry instant
    assert!(svc.validate_access_token_at(&pair.access_token, NOW).is_ok());
    // the expiry instant itself and anything later is rejected
    let err = svc.validate_access_token_at(&pair.access_token, NOW + 1).unwrap_err();
    assert_eq!(err, AuthError::Authentication);
    assert!(svc.validate_access_token_at(&pair.access_token, NOW + 2).is_err());
    // the longer-lived refresh token still works and names the same identity
    let rc = svc.validate_refresh_token_at(&pair.refresh_token, NOW + 2).unwrap();
    assert_eq!(rc.user_id, "u");
}

#[test]
fn cross_kind_tokens_are_rejected() {
    let svc = service();
    let pair = svc.generate_token_pair_at("u", "e@x.y", "user", NOW).unwrap();
    assert!(svc.validate_access_token_at(&pair.refresh_token, NOW).is_err());
    assert!(svc.validate_refresh_token_at(&pair.access_token, NOW).is_err());
}

#[test]
fn wrong_secret_is_rejected() {
    let svc = service();
    let other = AuthService::new("another-secret".to_string(), 3600, 86400);
    let pair = svc.generate_token_pair_at("u", "e@x.y", "user", NOW).unwrap();
    assert!(other.validate_access_token_at(&pair.access_token, NOW).is_err());
    assert!(other.validate_refresh_token_at(&pair.refresh_token, NOW).is_err());
}

#[test]
fn tampered_token_is_rejected() {
    let svc = service();
    let pair = svc.generate_token_pair_at("u", "e@x.y", "user", NOW).unwrap();
    let token = pair.access_token;
    // flip one character of the payload segment
    let dot = token.find('.').unwrap();
    let mut chars: Vec<char> = token.chars().collect();
    let idx = dot + 2;
    chars[idx] = if chars[idx] == 'A' { 'B' } else { 'A' };
    let tampered: String = chars.into_iter().collect();
    assert!(svc.validate_access_token_at(&tampered, NOW).is_err());
    // and garbage is rejected outright
    assert!(svc.validate_access_token_at("not-a-token", NOW).is_err());
    assert!(svc.validate_access_token_at("a.b.c", NOW).is_err());
    assert!(svc.validate_access_token_at("", NOW).is_err());
}

#[test]
fn fresh_token_ids_differ_between_issuances() {
    let svc = service();
    let p1 = svc.generate_token_pair_at("u", "e@x.y", "user", NOW).unwrap();
    let p2 = svc.generate_token_pair_at("u", "e@x.y", "user", NOW).unwrap();
    assert_ne!(p1.access_token, p2.access_token);
    assert_ne!(p1.refresh_token, p2.refresh_token);
    let c1 = svc.validate_access_token_at(&p1.access_token, NOW).unwrap();
    let c2 = svc.validate_access_token_at(&p2.access_token, NOW).unwrap();
    assert_ne!(c1.jti, c2.jti);
}

#[test]
fn clock_based_issue_and_validate() {
    let svc = service();
    let pair = svc.generate_token_pair("u-7", "bob@example.com", "user").unwrap();
    let claims = svc.validate_access_token(&pair.access_token).unwrap();
    assert_eq!(claims.user_id, "u-7");
    let rc = svc.validate_refresh_token(&pair.refresh_token).unwrap();
    assert_eq!(rc.user_id, "u-7");
}

#[test]
fn expiry_overflow_is_an_internal_error() {
    let svc = AuthService::new(SECRET.to_string(), i64::MAX, 86400);
    let err = svc.generate_token_pair_at("u", "e@x.y", "user", 10).unwrap_err();
    assert_eq!(err, AuthError::Internal);
}

#[test]
fn extract_bearer_prefix() {
    assert_eq!(
        AuthService::extract_token_from_header("Bearer abc123").unwrap(),
        "abc123"
    );
    assert!(AuthService::extract_token_from_header("abc123").is_err());
    assert!(AuthService::extract_token_from_header("bearer abc123").is_err());
    assert!(AuthService::extract_token_from_header("Bearer").is_err());
    assert_eq!(AuthService::extract_token_from_header("Bearer ").unwrap(), "");
}

#[test]
fn error_messages_are_generic() {
    assert_eq!(AuthError::Authentication.message(), "authentication failed");
    assert_eq!(AuthError::Internal.message(), "internal error");
}

#[test]
fn claims_before_the_epoch_roundtrip() {
    let svc = service();
    let pair = svc.generate_token_pair_at("u", "e@x.y", "user", -7200).unwrap();
    let claims = svc.validate_access_token_at(&pair.access_token, -7200).unwrap();
    assert_eq!(claims.iat, -7200);
    assert_eq!(claims.exp, -3600);
}
