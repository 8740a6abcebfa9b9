use marketplace::auth::{bearer_token, AuthFailure};

#[test]
fn missing_header() {
    assert_eq!(bearer_token(None), Err(AuthFailure::MissingHeader));
    assert_eq!(AuthFailure::MissingHeader.status(), 401);
    assert_eq!(AuthFailure::MissingHeader.message(), "Missing Authorization header");
}

#[test]
fn invalid_characters() {
    let r = bearer_token(Some(b"Bearer abc\x7f"));
    assert_eq!(r, Err(AuthFailure::InvalidCharacters));
    assert_eq!(bearer_token(Some("Bearer é".as_bytes())), Err(AuthFailure::InvalidCharacters));
    assert_eq!(AuthFailure::InvalidCharacters.status(), 400);
}

#[test]
fn not_bearer() {
    assert_eq!(bearer_token(Some(b"Basic abc")), Err(AuthFailure::NotBearer));
    assert_eq!(bearer_token(Some(b"bearer abc")), Err(AuthFailure::NotBearer));
    assert_eq!(bearer_token(Some(b"Bearer")), Err(AuthFailure::NotBearer));
    assert_eq!(AuthFailure::NotBearer.status(), 400);
    assert_eq!(
        AuthFailure::NotBearer.message(),
        "Authorization header must start with 'Bearer '"
    );
}

#[test]
fn bearer_token_is_the_rest() {
    assert_eq!(bearer_token(Some(b"Bearer a.b.c")), Ok(b"a.b.c".to_vec()));
    assert_eq!(bearer_token(Some(b"Bearer ")), Ok(Vec::new()));
    assert_eq!(bearer_token(Some(b"Bearer \tx")), Ok(b"\tx".to_vec()));
}

#[test]
fn invalid_token_status() {
    assert_eq!(AuthFailure::InvalidToken.status(), 401);
    assert_eq!(AuthFailure::InvalidToken.message(), "Invalid or expired token");
}

#[test]
fn bearer_header_carries_a_session_token() {
    let token = marketplace::jwt::encode_jwt(br#"{"alg":"HS256","typ":"JWT"}"#, br#"{"exp":1}"#, b"k");
    let mut header = b"Bearer ".to_vec();
    header.extend_from_slice(&token);
    assert_eq!(bearer_token(Some(&header)), Ok(token));
}
