use authcore::auth::AuthService;
use authcore::errors::AuthError;

fn service() -> AuthService {
    AuthService::new("unused".to_string(), 3600, 86400)
}

#[test]
fn hash_then_verify_same_password() {
    let svc = service();
    let hash = svc.hash_password("correct horse battery staple").unwrap();
    assert!(svc.verify_password("correct horse battery staple", &hash).unwrap());
}

#[test]
fn verify_rejects_other_password() {
    let svc = service();
    let hash = svc.hash_password("password-one").unwrap();
    assert!(!svc.verify_password("password-two", &hash).unwrap());
    assert!(!svc.verify_password("", &hash).unwrap());
}

#[test]
fn two_hashes_of_one_password_differ_yet_both_verify() {
    let svc = service();
    let h1 = svc.hash_password("same password").unwrap();
    let h2 = svc.hash_password("same password").unwrap();
    assert_ne!(h1, h2);
    assert!(svc.verify_password("same password", &h1).unwrap());
    assert!(svc.verify_password("same password", &h2).unwrap());
}

#[test]
fn hash_is_self_describing() {
    let svc = service();
    let hash = svc.hash_password("pw").unwrap();
    assert!(hash.starts_with("$argon2"));
}

#[test]
fn corrupt_stored_hash_is_an_internal_error() {
    let svc = service();
    let err = svc.verify_password("pw", "not a phc string").unwrap_err();
    assert_eq!(err, AuthError::Internal);
}
