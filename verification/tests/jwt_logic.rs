use myrust::http::jwt::{
    bearer_token, rejects_on_failure, token_expired, SignResp, Signer, Verifier,
    VerifierErrorErased, VerifierMode,
};
use myrust::http::server::jwt as server_jwt;

#[test]
fn bearer_extraction() {
    assert!(matches!(
        bearer_token(None),
        Err(VerifierErrorErased::NotProvided)
    ));
    assert!(matches!(
        bearer_token(Some("Token abc")),
        Err(VerifierErrorErased::InvalidTokenType)
    ));
    assert!(matches!(
        bearer_token(Some("Bear")),
        Err(VerifierErrorErased::InvalidTokenType)
    ));
    assert!(matches!(
        bearer_token(Some("bearer abc")),
        Err(VerifierErrorErased::InvalidTokenType)
    ));
    assert_eq!(bearer_token(Some("Bearer abc.def.ghi")).unwrap(), "abc.def.ghi");
    assert_eq!(bearer_token(Some("Bearer ")).unwrap(), "");
}

#[test]
fn expiry_decision() {
    assert!(token_expired(999, 1000));
    assert!(!token_expired(1000, 1000));
    assert!(!token_expired(1001, 1000));
}

#[test]
fn failure_mode_decision() {
    assert!(rejects_on_failure(&VerifierMode::MustSuccess));
    assert!(!rejects_on_failure(&VerifierMode::AllowFailed));
    let v = Verifier::new((), VerifierMode::MustSuccess);
    assert!(matches!(v.mode, VerifierMode::MustSuccess));
    let sv = server_jwt::Verifier::new((), server_jwt::VerifierMode::AllowFailed);
    assert!(matches!(sv.mode, server_jwt::VerifierMode::AllowFailed));
}

#[test]
fn signer_expiry_and_response() {
    let s = Signer::new((), 3_600_000);
    assert_eq!(s.expiration_millis, 3_600_000);
    assert_eq!(s.expiry(1_000), 3_601_000);
    let resp = SignResp::from("tok".to_string());
    assert_eq!(resp.token, "tok");
}

#[test]
fn server_failure_status() {
    assert_eq!(server_jwt::failure_status_code(true), 500);
    assert_eq!(server_jwt::failure_status_code(false), 400);
}
