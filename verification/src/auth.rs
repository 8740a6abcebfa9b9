//! Bearer authentication: from the raw `Authorization` header to the token
//! it carries, and the answer given when a request is refused.

use crate::codec::{b64url_encode, is_b64_symbol, lemma_encode_alphabet};
use crate::jwt::{jwt_token, signature_for, signing_input, DOT};
use crate::mac::hmac_sha256;
use vstd::prelude::*;

verus! {

/// The user on whose behalf a request runs.
#[derive(Clone, Copy, Debug, PartialEq, Eq, Structural)]
pub struct AuthUser {
    pub user_id: u128,
}

/// Why a request could not be authenticated.
#[derive(Debug, PartialEq, Eq, Structural)]
pub enum AuthFailure {
    /// No `Authorization` header.
    MissingHeader,
    /// The header holds a byte other than tab or visible ASCII.
    InvalidCharacters,
    /// The header does not start with `Bearer `.
    NotBearer,
    /// The token was refused.
    InvalidToken,
}

/// A byte that a header value may hold to be read as text: tab, or a visible
/// ASCII character or space.
pub open spec fn is_visible_ascii(b: u8) -> bool {
    (32 <= b && b < 127) || b == 9
}

pub open spec fn all_visible_ascii(s: Seq<u8>) -> bool {
    forall|i: int| 0 <= i < s.len() ==> is_visible_ascii(s[i])
}

/// The bytes of `Bearer ` (with its trailing space).
pub open spec fn bearer_prefix() -> Seq<u8> {
    seq![66u8, 101u8, 97u8, 114u8, 101u8, 114u8, 32u8]
}

/// What `bearer_token` answers for the header value `header`.
pub open spec fn bearer_outcome(header: Option<Seq<u8>>, res: Result<Vec<u8>, AuthFailure>) -> bool {
    match header {
        None => res == Err::<Vec<u8>, AuthFailure>(AuthFailure::MissingHeader),
        Some(v) => if !all_visible_ascii(v) {
            res == Err::<Vec<u8>, AuthFailure>(AuthFailure::InvalidCharacters)
        } else if !(v.len() >= 7 && v.take(7) == bearer_prefix()) {
            res == Err::<Vec<u8>, AuthFailure>(AuthFailure::NotBearer)
        } else {
            res matches Ok(token) && token@ == v.skip(7)
        },
    }
}

impl AuthFailure {
    /// The HTTP status of the refusal: 401 when credentials are missing or
    /// refused, 400 when the header is malformed.
    pub fn status(&self) -> (code: u16)
        ensures
            code == (if *self is MissingHeader || *self is InvalidToken {
                401u16
            } else {
                400u16
            }),
    {
        match self {
            AuthFailure::MissingHeader => 401,
            AuthFailure::InvalidCharacters => 400,
            AuthFailure::NotBearer => 400,
            AuthFailure::InvalidToken => 401,
        }
    }

    /// The text of the `error` field of the refusal.
    pub fn message(&self) -> (text: &'static str)
        ensures
            *self is MissingHeader ==> text@ == "Missing Authorization header"@,
            *self is InvalidCharacters ==> text@ == "Invalid characters in Authorization header"@,
            *self is NotBearer ==> text@ == "Authorization header must start with 'Bearer '"@,
            *self is InvalidToken ==> text@ == "Invalid or expired token"@,
    {
        match self {
            AuthFailure::MissingHeader => "Missing Authorization header",
            AuthFailure::InvalidCharacters => "Invalid characters in Authorization header",
            AuthFailure::NotBearer => "Authorization header must start with 'Bearer '",
            AuthFailure::InvalidToken => "Invalid or expired token",
        }
    }
}

/// The token of a `Bearer` credential, from the raw bytes of the
/// `Authorization` header (`None` when the request has none).
pub fn bearer_token(header: Option<&[u8]>) -> (res: Result<Vec<u8>, AuthFailure>)
    ensures
        bearer_outcome(
            match header {
                Some(v) => Some(v@),
                None => None,
            },
            res,
        ),
{
    let value = match header {
        None => {
            return Err(AuthFailure::MissingHeader);
        },
        Some(v) => v,
    };
    let mut i: usize = 0;
    while i < value.len()
        invariant
            header == Some(value),
            i <= value.len(),
            forall|j: int| 0 <= j < i ==> is_visible_ascii(value@[j]),
        decreases value.len() - i,
    {
        let b = value[i];
        if !((32 <= b && b < 127) || b == 9) {
            assert(!is_visible_ascii(value@[i as int]));
            return Err(AuthFailure::InvalidCharacters);
        }
        i = i + 1;
    }
    assert(all_visible_ascii(value@));
    let prefix: [u8; 7] = [66, 101, 97, 114, 101, 114, 32];
    if value.len() < 7 {
        return Err(AuthFailure::NotBearer);
    }
    let mut k: usize = 0;
    while k < 7
        invariant
            header == Some(value),
            value.len() >= 7,
            all_visible_ascii(value@),
            k <= 7,
            prefix@ == bearer_prefix(),
            forall|j: int| 0 <= j < k ==> value@[j] == bearer_prefix()[j],
        decreases 7 - k,
    {
        if value[k] != prefix[k] {
            assert(value@.take(7)[k as int] != bearer_prefix()[k as int]);
            return Err(AuthFailure::NotBearer);
        }
        k = k + 1;
    }
    assert(value@.take(7) =~= bearer_prefix());
    let mut token: Vec<u8> = Vec::new();
    let mut m: usize = 7;
    while m < value.len()
        invariant
            7 <= m <= value.len(),
            token@ == value@.subrange(7, m as int),
        decreases value.len() - m,
    {
        token.push(value[m]);
        m = m + 1;
        assert(token@ =~= value@.subrange(7, m as int));
    }
    assert(token@ =~= value@.skip(7));
    Ok(token)
}

proof fn lemma_encoding_visible(data: Seq<u8>)
    ensures
        all_visible_ascii(b64url_encode(data)),
{
    lemma_encode_alphabet(data);
    let e = b64url_encode(data);
    assert forall|i: int| 0 <= i < e.len() implies is_visible_ascii(e[i]) by {
        assert(is_b64_symbol(e[i]));
    }
}

/// A session token travels intact in a bearer header: for every token that
/// `encode_jwt` makes, `bearer_token` on the header `Bearer <token>` gives
/// back exactly that token.
pub proof fn law_bearer_carries_token(
    header_json: Seq<u8>,
    claims_json: Seq<u8>,
    secret: Seq<u8>,
    res: Result<Vec<u8>, AuthFailure>,
)
    requires
        bearer_outcome(Some(bearer_prefix() + jwt_token(header_json, claims_json, secret)), res),
    ensures
        res matches Ok(token) && token@ == jwt_token(header_json, claims_json, secret),
{
    let t = jwt_token(header_json, claims_json, secret);
    let h = b64url_encode(header_json);
    let c = b64url_encode(claims_json);
    let s = signature_for(signing_input(h, c), secret);
    lemma_encoding_visible(header_json);
    lemma_encoding_visible(claims_json);
    lemma_encoding_visible(hmac_sha256(secret, signing_input(h, c)));
    let v = bearer_prefix() + t;
    assert forall|i: int| 0 <= i < v.len() implies is_visible_ascii(v[i]) by {
        if i >= 7 {
            let j = i - 7;
            assert(v[i] == t[j]);
            if j < h.len() {
                assert(t[j] == h[j]);
            } else if j == h.len() {
                assert(t[j] == DOT);
            } else if j < h.len() + 1 + c.len() {
                assert(t[j] == c[j - h.len() - 1]);
            } else if j == h.len() + 1 + c.len() {
                assert(t[j] == DOT);
            } else {
                assert(t[j] == s[j - h.len() - c.len() - 2]);
            }
        }
    }
    assert(v.take(7) =~= bearer_prefix());
    assert(v.skip(7) =~= t);
}

} // verus!
