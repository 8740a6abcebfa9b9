use marketplace::jwt::{check_expiry, Claims, JwtError};
use marketplace::account::{
    authorize_login, grant_session, registration_message, wallet_from_columns, Credentials, LoginGrant,
    LoginResponse, Wallet, SESSION_SECONDS,
};
use marketplace::catalog::{product_created_message, require_affected};
use marketplace::error::AppError;
use marketplace::password::{hash_password, hash_password_with_salt, verify_password};

#[test]
fn hash_then_verify() {
    let phc = hash_password("correct horse");
    assert!(phc.starts_with("$argon2id$v=19$m=19456,t=2,p=1$"));
    assert!(verify_password(&phc, "correct horse"));
    assert!(!verify_password(&phc, "wrong horse"));
}

#[test]
fn two_hashes_differ_by_salt() {
    let a = hash_password("pw");
    let b = hash_password("pw");
    assert_ne!(a, b);
    assert!(verify_password(&a, "pw") && verify_password(&b, "pw"));
}

#[test]
fn malformed_hash_does_not_verify() {
    assert!(!verify_password("not a hash", "pw"));
    assert!(!verify_password("", ""));
}

#[test]
fn login_decisions() {
    let phc = hash_password("pw");
    let account = Credentials { user_id: 9, password_hash: phc.clone() };
    assert_eq!(authorize_login(Some(account), "pw"), Ok(9));
    let account = Credentials { user_id: 9, password_hash: phc };
    assert_eq!(authorize_login(Some(account), "nope"), Err(401));
    assert_eq!(authorize_login(None, "pw"), Err(401));
    assert_eq!(
        grant_session(9, 1_000),
        LoginGrant { user_id: 9, expires_at: 1_000 + SESSION_SECONDS as usize }
    );
}

#[test]
fn login_response_holds_token() {
    let r = LoginResponse { token: "t".to_string() };
    assert_eq!(r.token, "t");
}

#[test]
fn registration_text() {
    assert_eq!(registration_message("alice"), "User registered: alice");
}

#[test]
fn wallet_columns() {
    assert_eq!(
        wallet_from_columns(Some(1), Some(2), Some(-5)).ok(),
        Some(Wallet { id: 1, user_id: 2, balance: -5 })
    );
    match wallet_from_columns(None, None, None) {
        Err(AppError::InternalServerError(m)) => assert_eq!(m, "wallet id not found"),
        other => panic!("{:?}", other),
    }
    match wallet_from_columns(Some(1), None, Some(3)) {
        Err(AppError::InternalServerError(m)) => assert_eq!(m, "user id nor found"),
        other => panic!("{:?}", other),
    }
    match wallet_from_columns(Some(1), Some(2), None) {
        Err(AppError::InternalServerError(m)) => assert_eq!(m, "balance not found"),
        other => panic!("{:?}", other),
    }
}

#[test]
fn affected_rows() {
    assert!(matches!(require_affected(0), Err(AppError::NotFound)));
    assert!(require_affected(1).is_ok());
    assert!(require_affected(u64::MAX).is_ok());
}

#[test]
fn created_message_has_hyphenated_id() {
    let id: u128 = 0x67e5504410b1426f9247bb680e5fe0c8;
    assert_eq!(
        product_created_message("Lamp", id),
        "Product 'Lamp' created (ID: 67e55044-10b1-426f-9247-bb680e5fe0c8)"
    );
    assert_eq!(
        product_created_message("", 0),
        "Product '' created (ID: 00000000-0000-0000-0000-000000000000)"
    );
}

#[test]
fn session_lasts_an_hour() {
    let phc = hash_password("pw");
    let user_id = authorize_login(Some(Credentials { user_id: 3, password_hash: phc }), "pw").unwrap();
    let grant = grant_session(user_id, 5_000);
    let claims = Claims { sub: grant.user_id, exp: grant.expires_at };
    assert_eq!(check_expiry(claims, 5_000 + 3_599).ok(), Some(claims));
    assert!(matches!(check_expiry(claims, 5_000 + 3_600), Err(JwtError::Expired)));
}

#[test]
fn salted_hash_layout() {
    let zero = [0u8; 16];
    let a = hash_password_with_salt("pw", &zero);
    assert!(a.starts_with("$argon2id$v=19$m=19456,t=2,p=1$AAAAAAAAAAAAAAAAAAAAAA$"));
    assert_eq!(a.len(), 31 + 22 + 1 + 43);
    assert_eq!(a, hash_password_with_salt("pw", &zero));
    assert!(verify_password(&a, "pw"));
    let mut other = [0u8; 16];
    other[0] = 0xfb;
    other[1] = 0xff;
    let b = hash_password_with_salt("pw", &other);
    assert!(b.starts_with("$argon2id$v=19$m=19456,t=2,p=1$+/8AAAAAAAAAAAAAAAAAAA$"));
    assert_ne!(a, b);
}
