use imgproc::auth::{bearer_token, claims_grant_access, Admission, ApiKey, ApiKeyMiddleware, Claims};

fn guard() -> ApiKeyMiddleware<()> {
    ApiKey {
        vmbfcoreapi_imgproc_mkey: "test-key".into(),
        vmbfcoreapi_imgproc_uid: "test-uid".into(),
    }
    .new_transform(())
}

#[test]
fn bearer_token_is_stripped() {
    assert_eq!(bearer_token("Bearer abc.def.ghi"), Some("abc.def.ghi"));
    assert_eq!(bearer_token("Bearer "), Some(""));
}

#[test]
fn other_schemes_carry_no_bearer_token() {
    assert_eq!(bearer_token("Basic dXNlcjpwYXNz"), None);
    assert_eq!(bearer_token("bearer abc"), None);
    assert_eq!(bearer_token("Bearer"), None);
    assert_eq!(bearer_token(""), None);
}

#[test]
fn test_api_key_middleware_success() {
    assert!(matches!(guard().admission(Some("test-key"), None), Admission::Forward));
}

#[test]
fn test_api_key_middleware_failure() {
    assert!(matches!(guard().admission(None, None), Admission::Refuse));
}

#[test]
fn wrong_api_key_without_token_is_refused() {
    assert!(matches!(guard().admission(Some("other-key"), None), Admission::Refuse));
    assert!(matches!(guard().admission(Some("test-key "), Some("Basic abc")), Admission::Refuse));
    assert!(matches!(guard().admission(None, Some("test-key")), Admission::Refuse));
}

#[test]
fn request_with_bearer_token_is_checked() {
    match guard().admission(None, Some("Bearer tok")) {
        Admission::CheckToken(t) => assert_eq!(t, "tok"),
        _ => panic!("a bearer token must be checked"),
    }
    match guard().admission(Some("wrong"), Some("Bearer tok2")) {
        Admission::CheckToken(t) => assert_eq!(t, "tok2"),
        _ => panic!("a bearer token must be checked"),
    }
}

#[test]
fn api_key_is_enough_even_with_a_token() {
    assert!(matches!(guard().admission(Some("test-key"), Some("Bearer tok")), Admission::Forward));
}

#[test]
fn claims_for_the_expected_user_before_expiry_grant_access() {
    let claims = Claims { user_id: "test-uid".to_string(), iat: 100, exp: 2000 };
    assert!(claims_grant_access(Some(&claims), "test-uid", 1999));
}

#[test]
fn expired_or_foreign_claims_do_not_grant_access() {
    let claims = Claims { user_id: "test-uid".to_string(), iat: 100, exp: 2000 };
    assert!(!claims_grant_access(Some(&claims), "test-uid", 2000));
    assert!(!claims_grant_access(Some(&claims), "test-uid", 3000));
    assert!(!claims_grant_access(Some(&claims), "other-uid", 10));
    assert!(!claims_grant_access(None, "test-uid", 10));
}

#[test]
fn guard_keeps_service_and_credentials() {
    let key = ApiKey {
        vmbfcoreapi_imgproc_mkey: "test-key".into(),
        vmbfcoreapi_imgproc_uid: "test-uid".into(),
    };
    let guard = key.new_transform(42u32);
    assert_eq!(**guard.service(), 42);
    assert_eq!(guard.secret(), "test-key");
    assert_eq!(guard.user_id(), "test-uid");
}
