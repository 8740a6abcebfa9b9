//! Accounts: registration, login and wallets.

use crate::error::AppError;
use crate::jwt::{expiry_outcome, Claims, JwtError};
use crate::password::{argon2_verifies, verify_password};
use vstd::prelude::*;
use vstd::string::StringSliceAdditionalSpecFns;

verus! {

/// How long a login session lasts, in seconds.
pub const SESSION_SECONDS: i64 = 3600;

/// The answer to a successful login.
#[derive(Debug)]
pub struct LoginResponse {
    pub token: String,
}

/// The stored credentials of a user, as looked up by e-mail.
#[derive(Debug)]
pub struct Credentials {
    pub user_id: u128,
    pub password_hash: String,
}

/// Permission to open a session for `user_id` that expires at `expires_at`
/// (seconds since the Unix epoch).
#[derive(Clone, Copy, Debug, PartialEq, Eq, Structural)]
pub struct LoginGrant {
    pub user_id: u128,
    pub expires_at: usize,
}

/// A user's wallet.
#[derive(Clone, Copy, Debug, PartialEq, Eq, Structural)]
pub struct Wallet {
    pub id: u128,
    pub user_id: u128,
    pub balance: i32,
}

/// Decides a login: refused with status 401 when no account has the e-mail
/// or the password does not match its hash; otherwise the user it is for.
pub fn authorize_login(account: Option<Credentials>, password: &str) -> (res: Result<u128, u16>)
    ensures
        match account {
            None => res == Err::<u128, u16>(401),
            Some(c) => if argon2_verifies(c.password_hash@, password.spec_bytes()) {
                res == Ok::<u128, u16>(c.user_id)
            } else {
                res == Err::<u128, u16>(401)
            },
        },
{
    let credentials = match account {
        None => {
            return Err(401);
        },
        Some(c) => c,
    };
    if !verify_password(credentials.password_hash.as_str(), password) {
        return Err(401);
    }
    Ok(credentials.user_id)
}

/// A session of `SESSION_SECONDS` for `user_id`, granted at time `now`
/// (seconds since the Unix epoch).
pub fn grant_session(user_id: u128, now: i64) -> (grant: LoginGrant)
    requires
        now <= i64::MAX - SESSION_SECONDS,
    ensures
        grant == (LoginGrant { user_id, expires_at: (now + SESSION_SECONDS) as usize }),
{
    let expires = now + SESSION_SECONDS;
    LoginGrant { user_id, expires_at: expires as usize }
}

/// The confirmation text of a registration.
pub fn registration_message(username: &str) -> (text: String)
    ensures
        text@ == "User registered: "@ + username@,
{
    let mut text = String::from_str("User registered: ");
    text.append(username);
    text
}

/// Builds a wallet from the columns of its row, each `None` when it could not
/// be read; the first missing column names the error.
pub fn wallet_from_columns(id: Option<u128>, user_id: Option<u128>, balance: Option<i32>) -> (res:
    Result<Wallet, AppError>)
    ensures
        id is None ==> (res matches Err(AppError::InternalServerError(m)) && m@
            == "wallet id not found"@),
        id is Some && user_id is None ==> (res matches Err(AppError::InternalServerError(m)) && m@
            == "user id nor found"@),
        id is Some && user_id is Some && balance is None ==> (res matches Err(
            AppError::InternalServerError(m),
        ) && m@ == "balance not found"@),
        id is Some && user_id is Some && balance is Some ==> res == Ok::<Wallet, AppError>(
            Wallet { id: id->Some_0, user_id: user_id->Some_0, balance: balance->Some_0 },
        ),
{
    let id = match id {
        Some(v) => v,
        None => {
            return Err(AppError::InternalServerError(String::from_str("wallet id not found")));
        },
    };
    let user_id = match user_id {
        Some(v) => v,
        None => {
            return Err(AppError::InternalServerError(String::from_str("user id nor found")));
        },
    };
    let balance = match balance {
        Some(v) => v,
        None => {
            return Err(AppError::InternalServerError(String::from_str("balance not found")));
        },
    };
    Ok(Wallet { id, user_id, balance })
}

/// The lifetime of a session: claims for a login granted at time `now`
/// (with the expiry `grant_session` gives) pass `check_expiry` at every time `later`
/// before `now + SESSION_SECONDS`, and are refused as expired from then on.
pub proof fn law_session_lifetime(
    grant: LoginGrant,
    now: i64,
    later: usize,
    res: Result<Claims, JwtError>,
)
    requires
        0 <= now,
        now + SESSION_SECONDS <= usize::MAX,
        grant.expires_at == (now + SESSION_SECONDS) as usize,
        expiry_outcome(Claims { sub: grant.user_id, exp: grant.expires_at }, later, res),
    ensures
        later < now + SESSION_SECONDS ==> res == Ok::<Claims, JwtError>(
            Claims { sub: grant.user_id, exp: grant.expires_at },
        ),
        later >= now + SESSION_SECONDS ==> res matches Err(JwtError::Expired),
{
}

} // verus!
