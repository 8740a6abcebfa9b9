//! Session tokens in the compact JWS form `header.claims.signature`: each
//! segment is URL-safe base64 without padding, and the signature is the
//! HMAC-SHA-256 of `header.claims` under the server secret (`HS256`).
//!
//! The library frames and checks bytes; the JSON text of the header and the
//! claims is written and read by the caller.

use crate::codec::{
    base64_error_text, Base64Error,
    b64url_encode, decode_b64url, encode_b64url, is_b64_symbol, is_b64url,
    lemma_decode_unique, lemma_encode_alphabet, lemma_encode_len,
};
use crate::mac::{hmac_sha256, hmac_sha256_tag};
use vstd::prelude::*;
use vstd::string::StringSliceAdditionalSpecFns;

verus! {

/// The byte that separates the segments of a token (`.`).
pub const DOT: u8 = 46;

/// What a session token asserts: whose session it is and until when (seconds
/// since the Unix epoch).
#[derive(Clone, Copy, Debug, PartialEq, Eq, Structural)]
pub struct Claims {
    pub sub: u128,
    pub exp: usize,
}

/// Why a token was refused.
#[derive(Clone, Copy, Debug, PartialEq, Eq, Structural)]
pub enum JwtError {
    /// The token has no `.` at all.
    MissingClaims,
    /// The token has a single `.`.
    MissingSignature,
    /// The token has more than two `.`.
    TooManySegments,
    /// The signature segment is not the one the secret gives.
    BadSignature,
    /// The header segment is not canonical unpadded URL-safe base64.
    HeaderEncoding(Base64Error),
    /// The header names another algorithm or type than `HS256` / `JWT`.
    UnsupportedHeader,
    /// The claims segment is not canonical unpadded URL-safe base64.
    ClaimsEncoding(Base64Error),
    /// The expiry is not after the current time.
    Expired,
}

fn prefixed(prefix: &str, e: &Base64Error) -> (text: String)
    ensures
        text@ == prefix@ + base64_error_text(*e),
{
    let mut text = String::from_str(prefix);
    let detail = e.message();
    text.append(detail.as_str());
    text
}

impl JwtError {
    /// The text a refusal is reported with.
    pub fn message(&self) -> (text: String)
        ensures
            *self is MissingClaims ==> text@ == "invalid token: missing claims"@,
            *self is MissingSignature ==> text@ == "invalid token: missing signature"@,
            *self is TooManySegments ==> text@ == "invalid token: too many segments"@,
            *self is BadSignature ==> text@ == "invalid token signature"@,
            *self matches JwtError::HeaderEncoding(e) ==> text@ == "invalid header encoding: "@
                + base64_error_text(e),
            *self is UnsupportedHeader ==> text@ == "unsupported token header"@,
            *self matches JwtError::ClaimsEncoding(e) ==> text@ == "invalid claims encoding: "@
                + base64_error_text(e),
            *self is Expired ==> text@ == "token expired"@,
    {
        match self {
            JwtError::MissingClaims => String::from_str("invalid token: missing claims"),
            JwtError::MissingSignature => String::from_str("invalid token: missing signature"),
            JwtError::TooManySegments => String::from_str("invalid token: too many segments"),
            JwtError::BadSignature => String::from_str("invalid token signature"),
            JwtError::HeaderEncoding(e) => prefixed("invalid header encoding: ", e),
            JwtError::UnsupportedHeader => String::from_str("unsupported token header"),
            JwtError::ClaimsEncoding(e) => prefixed("invalid claims encoding: ", e),
            JwtError::Expired => String::from_str("token expired"),
        }
    }
}

/// The three segments of a token, still encoded.
pub struct TokenSegments {
    pub header: Vec<u8>,
    pub claims: Vec<u8>,
    pub signature: Vec<u8>,
}

/// A token whose signature has been checked: the decoded header JSON and the
/// still-encoded claims segment.
pub struct SignedToken {
    pub header_json: Vec<u8>,
    pub claims_b64: Vec<u8>,
}

pub open spec fn dot_free(s: Seq<u8>) -> bool {
    forall|i: int| 0 <= i < s.len() ==> s[i] != DOT
}

/// How many `.` bytes `s` holds.
pub open spec fn count_dots(s: Seq<u8>) -> nat
    decreases s.len(),
{
    if s.len() == 0 {
        0
    } else {
        count_dots(s.drop_last()) + if s.last() == DOT {
            1nat
        } else {
            0nat
        }
    }
}

pub open spec fn joined(h: Seq<u8>, c: Seq<u8>, s: Seq<u8>) -> Seq<u8> {
    h + seq![DOT] + c + seq![DOT] + s
}

/// `t` is `h.c.s` with three segments free of `.`.
pub open spec fn is_split(t: Seq<u8>, h: Seq<u8>, c: Seq<u8>, s: Seq<u8>) -> bool {
    &&& dot_free(h)
    &&& dot_free(c)
    &&& dot_free(s)
    &&& t == joined(h, c, s)
}

/// The segments of a token with exactly two `.` bytes.
pub open spec fn token_split(t: Seq<u8>) -> (Seq<u8>, Seq<u8>, Seq<u8>) {
    choose|p: (Seq<u8>, Seq<u8>, Seq<u8>)| is_split(t, p.0, p.1, p.2)
}

/// The bytes that the signature covers: `header.claims`.
pub open spec fn signing_input(h: Seq<u8>, c: Seq<u8>) -> Seq<u8> {
    h + seq![DOT] + c
}

/// The signature segment for `input` under `secret`.
pub open spec fn signature_for(input: Seq<u8>, secret: Seq<u8>) -> Seq<u8> {
    b64url_encode(hmac_sha256(secret, input))
}

/// The token made from header JSON, claims JSON and a secret.
pub open spec fn jwt_token(header_json: Seq<u8>, claims_json: Seq<u8>, secret: Seq<u8>) -> Seq<u8> {
    let h = b64url_encode(header_json);
    let c = b64url_encode(claims_json);
    joined(h, c, signature_for(signing_input(h, c), secret))
}

/// What `split_token` answers for token `t`: an error named by the number
/// of dots, or, for exactly two, the three segments around them.
pub open spec fn split_outcome(t: Seq<u8>, res: Result<TokenSegments, JwtError>) -> bool {
    let n = count_dots(t);
    if n == 0 {
        res matches Err(JwtError::MissingClaims)
    } else if n == 1 {
        res matches Err(JwtError::MissingSignature)
    } else if n >= 3 {
        res matches Err(JwtError::TooManySegments)
    } else {
        res matches Ok(p) && is_split(t, p.header@, p.claims@, p.signature@)
    }
}

/// What `open_jwt` returns for token `t` under `secret`.
pub open spec fn open_outcome(t: Seq<u8>, secret: Seq<u8>, res: Result<SignedToken, JwtError>) -> bool {
    let n = count_dots(t);
    if n == 0 {
        res matches Err(JwtError::MissingClaims)
    } else if n == 1 {
        res matches Err(JwtError::MissingSignature)
    } else if n >= 3 {
        res matches Err(JwtError::TooManySegments)
    } else {
        let (h, c, s) = token_split(t);
        &&& is_split(t, h, c, s)
        &&& if s != signature_for(signing_input(h, c), secret) {
            res matches Err(JwtError::BadSignature)
        } else if !is_b64url(h) {
            res matches Err(JwtError::HeaderEncoding(_))
        } else {
            res matches Ok(tok) && b64url_encode(tok.header_json@) == h && tok.claims_b64@ == c
        }
    }
}

/// What `decode_claims` returns for the claims segment `text`.
pub open spec fn claims_outcome(text: Seq<u8>, res: Result<Vec<u8>, JwtError>) -> bool {
    &&& res is Ok <==> is_b64url(text)
    &&& res matches Ok(v) ==> b64url_encode(v@) == text
    &&& res matches Err(e) ==> e is ClaimsEncoding
}

proof fn lemma_count_concat(a: Seq<u8>, b: Seq<u8>)
    ensures
        count_dots(a + b) == count_dots(a) + count_dots(b),
    decreases b.len(),
{
    if b.len() == 0 {
        assert(a + b =~= a);
    } else {
        lemma_count_concat(a, b.drop_last());
        assert((a + b).drop_last() =~= a + b.drop_last());
    }
}

proof fn lemma_dot_free_count(s: Seq<u8>)
    requires
        dot_free(s),
    ensures
        count_dots(s) == 0,
    decreases s.len(),
{
    if s.len() > 0 {
        lemma_dot_free_count(s.drop_last());
    }
}

/// A split token has exactly two dots.
pub proof fn lemma_split_count(t: Seq<u8>, h: Seq<u8>, c: Seq<u8>, s: Seq<u8>)
    requires
        is_split(t, h, c, s),
    ensures
        count_dots(t) == 2,
{
    lemma_dot_free_count(h);
    lemma_dot_free_count(c);
    lemma_dot_free_count(s);
    let d = seq![DOT];
    assert(count_dots(d) == 1) by {
        assert(d.drop_last() =~= Seq::<u8>::empty());
        reveal_with_fuel(count_dots, 2);
    }
    lemma_count_concat(h, d);
    lemma_count_concat(h + d, c);
    lemma_count_concat(h + d + c, d);
    lemma_count_concat(h + d + c + d, s);
}

/// A token splits in one way at most.
pub proof fn lemma_split_unique(
    t: Seq<u8>,
    h: Seq<u8>,
    c: Seq<u8>,
    s: Seq<u8>,
    h2: Seq<u8>,
    c2: Seq<u8>,
    s2: Seq<u8>,
)
    requires
        is_split(t, h, c, s),
        is_split(t, h2, c2, s2),
    ensures
        h == h2,
        c == c2,
        s == s2,
{
    let a = h.len() as int;
    let a2 = h2.len() as int;
    assert(t[a] == DOT);
    assert(t[a2] == DOT);
    if a < a2 {
        assert(t[a] == h2[a]);
    }
    if a2 < a {
        assert(t[a2] == h[a2]);
    }
    assert(a == a2);
    let b = a + 1 + c.len();
    let b2 = a + 1 + c2.len();
    assert(t[b] == DOT);
    assert(t[b2] == DOT);
    if b < b2 {
        assert(t[b] == c2[b - a - 1]);
    }
    if b2 < b {
        assert(t[b2] == c[b2 - a - 1]);
    }
    assert(b == b2);
    assert(t.len() == b + 1 + s.len());
    assert(t.len() == b + 1 + s2.len());
    assert forall|i: int| 0 <= i < a implies h[i] == h2[i] by {
        assert(t[i] == h[i]);
        assert(t[i] == h2[i]);
    }
    assert forall|i: int| 0 <= i < c.len() implies c[i] == c2[i] by {
        assert(t[a + 1 + i] == c[i]);
        assert(t[a + 1 + i] == c2[i]);
    }
    assert forall|i: int| 0 <= i < s.len() implies s[i] == s2[i] by {
        assert(t[b + 1 + i] == s[i]);
        assert(t[b + 1 + i] == s2[i]);
    }
    assert(h =~= h2);
    assert(c =~= c2);
    assert(s =~= s2);
}

/// The segments that `token_split` picks are the split of the token.
proof fn lemma_token_split_is(t: Seq<u8>, h: Seq<u8>, c: Seq<u8>, s: Seq<u8>)
    requires
        is_split(t, h, c, s),
    ensures
        token_split(t) == (h, c, s),
{
    let p = (h, c, s);
    assert(is_split(t, p.0, p.1, p.2));
    let q = token_split(t);
    lemma_split_unique(t, h, c, s, q.0, q.1, q.2);
}

/// No encoding holds a `.`.
pub proof fn lemma_encode_dot_free(data: Seq<u8>)
    ensures
        dot_free(b64url_encode(data)),
{
    lemma_encode_alphabet(data);
    let e = b64url_encode(data);
    assert forall|i: int| 0 <= i < e.len() implies e[i] != DOT by {
        assert(is_b64_symbol(e[i]));
    }
}

/// Equality of two byte strings, decided by looking at every byte whatever
/// the outcome (no early exit once the lengths agree).
pub fn bytes_ct_eq(left: &[u8], right: &[u8]) -> (eq: bool)
    ensures
        eq == (left@ == right@),
{
    if left.len() != right.len() {
        return false;
    }
    let mut acc: u8 = 0;
    let mut i: usize = 0;
    while i < left.len()
        invariant
            left.len() == right.len(),
            i <= left.len(),
            (acc == 0) <==> (forall|j: int| 0 <= j < i ==> left@[j] == right@[j]),
        decreases left.len() - i,
    {
        let a = left[i];
        let b = right[i];
        assert((acc | (a ^ b)) == 0 <==> (acc == 0 && a == b)) by (bit_vector);
        acc = acc | (a ^ b);
        i = i + 1;
    }
    proof {
        if acc == 0 {
            assert(left@ =~= right@);
        }
    }
    acc == 0
}

/// Whether two strings are equal, comparing their UTF-8 bytes without an
/// early exit once the lengths agree.
pub fn constant_time_eq(left: &str, right: &str) -> (eq: bool)
    ensures
        eq == (left.spec_bytes() == right.spec_bytes()),
        eq == (left@ == right@),
{
    broadcast use vstd::utf8::encode_utf8_decode_utf8;

    let eq = bytes_ct_eq(left.as_bytes(), right.as_bytes());
    proof {
        if left.spec_bytes() == right.spec_bytes() {
            assert(vstd::utf8::decode_utf8(vstd::utf8::encode_utf8(left@)) == left@);
            assert(vstd::utf8::decode_utf8(vstd::utf8::encode_utf8(right@)) == right@);
        }
    }
    eq
}

fn push_all(dst: &mut Vec<u8>, src: &[u8])
    ensures
        final(dst)@ == old(dst)@ + src@,
{
    let ghost start = dst@;
    let mut i: usize = 0;
    while i < src.len()
        invariant
            i <= src.len(),
            dst@ == start + src@.subrange(0, i as int),
        decreases src.len() - i,
    {
        dst.push(src[i]);
        i = i + 1;
        assert(dst@ =~= start + src@.subrange(0, i as int));
    }
    assert(src@.subrange(0, src.len() as int) =~= src@);
}

fn dot_joined(first: &[u8], second: &[u8]) -> (out: Vec<u8>)
    ensures
        out@ == first@ + seq![DOT] + second@,
{
    let mut out: Vec<u8> = Vec::new();
    push_all(&mut out, first);
    out.push(DOT);
    push_all(&mut out, second);
    assert(out@ =~= first@ + seq![DOT] + second@);
    out
}

/// The signature segment for `input`: the HMAC-SHA-256 tag under `secret`,
/// base64-encoded.
pub fn sign(input: &[u8], secret: &[u8]) -> (signature: Vec<u8>)
    ensures
        signature@ == signature_for(input@, secret@),
        signature@ == b64url_encode(hmac_sha256(secret@, input@)),
        signature@.len() == 43,
        forall|i: int| 0 <= i < 43 ==> is_b64_symbol(#[trigger] signature@[i]),
{
    let tag = hmac_sha256_tag(secret, input);
    proof {
        lemma_encode_len(tag@);
        lemma_encode_alphabet(tag@);
    }
    encode_b64url(tag.as_slice())
}

/// The token for the given header JSON and claims JSON, signed with `secret`.
pub fn encode_jwt(header_json: &[u8], claims_json: &[u8], secret: &[u8]) -> (token: Vec<u8>)
    ensures
        token@ == jwt_token(header_json@, claims_json@, secret@),
        token@ == b64url_encode(header_json@) + seq![DOT] + b64url_encode(claims_json@) + seq![
            DOT
        ] + b64url_encode(
            hmac_sha256(
                secret@,
                b64url_encode(header_json@) + seq![DOT] + b64url_encode(claims_json@),
            ),
        ),
{
    let header_b64 = encode_b64url(header_json);
    let claims_b64 = encode_b64url(claims_json);
    let input = dot_joined(header_b64.as_slice(), claims_b64.as_slice());
    let signature = sign(input.as_slice(), secret);
    let token = dot_joined(input.as_slice(), signature.as_slice());
    assert(token@ =~= joined(header_b64@, claims_b64@, signature@));
    assert(token@ =~= header_b64@ + seq![DOT] + claims_b64@ + seq![DOT] + signature@);
    token
}

/// Cuts a token at its `.` bytes into header, claims and signature segments.
pub fn split_token(token: &[u8]) -> (res: Result<TokenSegments, JwtError>)
    ensures
        split_outcome(token@, res),
{
    let mut header: Vec<u8> = Vec::new();
    let mut claims: Vec<u8> = Vec::new();
    let mut signature: Vec<u8> = Vec::new();
    let mut dots: usize = 0;
    let mut i: usize = 0;
    while i < token.len()
        invariant
            i <= token.len(),
            dots as nat == count_dots(token@.take(i as int)),
            dots <= i,
            dot_free(header@),
            dot_free(claims@),
            dot_free(signature@),
            dots == 0 ==> header@ == token@.take(i as int),
            dots < 1 ==> claims@.len() == 0,
            dots < 2 ==> signature@.len() == 0,
            dots == 1 ==> header@ + seq![DOT] + claims@ == token@.take(i as int),
            dots == 2 ==> joined(header@, claims@, signature@) == token@.take(i as int),
        decreases token.len() - i,
    {
        let b = token[i];
        let ghost prev = token@.take(i as int);
        let ghost h0 = header@;
        let ghost c0 = claims@;
        let ghost s0 = signature@;
        assert(token@.take(i + 1) =~= prev.push(b));
        assert(token@.take(i + 1).drop_last() =~= prev);
        if b == DOT {
            dots = dots + 1;
            proof {
                if dots == 1 {
                    assert(header@ + seq![DOT] + claims@ =~= prev.push(b));
                } else if dots == 2 {
                    assert(joined(header@, claims@, signature@) =~= prev.push(b));
                }
            }
        } else if dots == 0 {
            header.push(b);
            assert(header@ =~= prev.push(b));
        } else if dots == 1 {
            claims.push(b);
            assert(header@ + seq![DOT] + claims@ =~= prev.push(b));
        } else if dots == 2 {
            signature.push(b);
            assert(joined(header@, claims@, signature@) =~= prev.push(b));
        }
        i = i + 1;
    }
    assert(token@.take(token.len() as int) =~= token@);
    if dots == 0 {
        Err(JwtError::MissingClaims)
    } else if dots == 1 {
        Err(JwtError::MissingSignature)
    } else if dots == 2 {
        Ok(TokenSegments { header, claims, signature })
    } else {
        Err(JwtError::TooManySegments)
    }
}

/// Checks the signature of `token` under `secret` and decodes its header.
/// The header JSON is handed back with the claims segment, still encoded.
pub fn open_jwt(token: &[u8], secret: &[u8]) -> (res: Result<SignedToken, JwtError>)
    ensures
        open_outcome(token@, secret@, res),
        res is Ok ==> exists|h: Seq<u8>, c: Seq<u8>|
            #![trigger dot_free(h), dot_free(c)]
            dot_free(h) && dot_free(c) && token@ == h + seq![DOT] + c + seq![DOT] + b64url_encode(
                hmac_sha256(secret@, h + seq![DOT] + c),
            ),
{
    let parts = match split_token(token) {
        Ok(parts) => parts,
        Err(e) => {
            return Err(e);
        },
    };
    proof {
        lemma_split_count(token@, parts.header@, parts.claims@, parts.signature@);
        lemma_token_split_is(token@, parts.header@, parts.claims@, parts.signature@);
    }
    let input = dot_joined(parts.header.as_slice(), parts.claims.as_slice());
    let expected = sign(input.as_slice(), secret);
    if !bytes_ct_eq(parts.signature.as_slice(), expected.as_slice()) {
        return Err(JwtError::BadSignature);
    }
    proof {
        let h = parts.header@;
        let c = parts.claims@;
        assert(signing_input(h, c) == h + seq![DOT] + c);
        assert(token@ =~= h + seq![DOT] + c + seq![DOT] + b64url_encode(
            hmac_sha256(secret@, h + seq![DOT] + c),
        ));
    }
    match decode_b64url(parts.header.as_slice()) {
        Ok(header_json) => Ok(SignedToken { header_json, claims_b64: parts.claims }),
        Err(e) => Err(JwtError::HeaderEncoding(e)),
    }
}

fn str_equals(s: &str, expected: &str) -> (eq: bool)
    ensures
        eq == (s@ == expected@),
{
    let n = s.unicode_len();
    if n != expected.unicode_len() {
        return false;
    }
    let mut i: usize = 0;
    while i < n
        invariant
            n == s@.len(),
            n == expected@.len(),
            i <= n,
            forall|j: int| 0 <= j < i ==> s@[j] == expected@[j],
        decreases n - i,
    {
        if s.get_char(i) != expected.get_char(i) {
            return false;
        }
        i = i + 1;
    }
    assert(s@ =~= expected@);
    true
}

/// Accepts only the header this service issues: algorithm `HS256`, type `JWT`.
pub fn check_header(alg: &str, typ: &str) -> (res: Result<(), JwtError>)
    ensures
        res is Ok <==> (alg@ == "HS256"@ && typ@ == "JWT"@),
        res matches Err(e) ==> e is UnsupportedHeader,
{
    if !str_equals(alg, "HS256") || !str_equals(typ, "JWT") {
        return Err(JwtError::UnsupportedHeader);
    }
    Ok(())
}

/// Decodes the claims segment of a checked token to its JSON bytes.
pub fn decode_claims(claims_b64: &[u8]) -> (res: Result<Vec<u8>, JwtError>)
    ensures
        claims_outcome(claims_b64@, res),
{
    match decode_b64url(claims_b64) {
        Ok(claims_json) => Ok(claims_json),
        Err(e) => Err(JwtError::ClaimsEncoding(e)),
    }
}

/// What `check_expiry` returns for `claims` at time `now`.
pub open spec fn expiry_outcome(claims: Claims, now: usize, res: Result<Claims, JwtError>) -> bool {
    if claims.exp <= now {
        res matches Err(JwtError::Expired)
    } else {
        res == Ok::<Claims, JwtError>(claims)
    }
}

/// Refuses claims whose expiry is not after `now` (seconds since the epoch).
pub fn check_expiry(claims: Claims, now: usize) -> (res: Result<Claims, JwtError>)
    ensures
        expiry_outcome(claims, now, res),
{
    if claims.exp <= now {
        return Err(JwtError::Expired);
    }
    Ok(claims)
}

/// Round trip of a session token: the token that `encode_jwt` makes from
/// header JSON `header_json`, claims JSON `claims_json` and `secret` is
/// accepted by `open_jwt` under the same secret, which gives back exactly
/// `header_json`; `decode_claims` on its claims segment gives back exactly
/// `claims_json`.
pub proof fn law_token_round_trip(
    header_json: Seq<u8>,
    claims_json: Seq<u8>,
    secret: Seq<u8>,
    opened: Result<SignedToken, JwtError>,
    decoded: Result<Vec<u8>, JwtError>,
)
    requires
        open_outcome(jwt_token(header_json, claims_json, secret), secret, opened),
        opened matches Ok(tok) ==> claims_outcome(tok.claims_b64@, decoded),
    ensures
        opened matches Ok(tok) && tok.header_json@ == header_json && tok.claims_b64@
            == b64url_encode(claims_json),
        decoded matches Ok(v) && v@ == claims_json,
{
    let h = b64url_encode(header_json);
    let c = b64url_encode(claims_json);
    let s = signature_for(signing_input(h, c), secret);
    let t = jwt_token(header_json, claims_json, secret);
    lemma_encode_dot_free(header_json);
    lemma_encode_dot_free(claims_json);
    lemma_encode_dot_free(hmac_sha256(secret, signing_input(h, c)));
    assert(is_split(t, h, c, s));
    lemma_split_count(t, h, c, s);
    lemma_token_split_is(t, h, c, s);
    assert(is_b64url(h)) by {
        assert(b64url_encode(header_json) == h);
    }
    let tok = opened->Ok_0;
    lemma_decode_unique(h, tok.header_json@, header_json);
    assert(is_b64url(c)) by {
        assert(b64url_encode(claims_json) == c);
    }
    let v = decoded->Ok_0;
    lemma_decode_unique(c, v@, claims_json);
}

/// Tokens tell their contents apart: two tokens that are equal were made
/// from the same header JSON and the same claims JSON (whatever the secrets).
pub proof fn law_token_injective(
    header1: Seq<u8>,
    claims1: Seq<u8>,
    secret1: Seq<u8>,
    header2: Seq<u8>,
    claims2: Seq<u8>,
    secret2: Seq<u8>,
)
    requires
        jwt_token(header1, claims1, secret1) == jwt_token(header2, claims2, secret2),
    ensures
        header1 == header2,
        claims1 == claims2,
{
    let t = jwt_token(header1, claims1, secret1);
    let h1 = b64url_encode(header1);
    let c1 = b64url_encode(claims1);
    let h2 = b64url_encode(header2);
    let c2 = b64url_encode(claims2);
    lemma_encode_dot_free(header1);
    lemma_encode_dot_free(claims1);
    lemma_encode_dot_free(header2);
    lemma_encode_dot_free(claims2);
    lemma_encode_dot_free(hmac_sha256(secret1, signing_input(h1, c1)));
    lemma_encode_dot_free(hmac_sha256(secret2, signing_input(h2, c2)));
    let s1 = signature_for(signing_input(h1, c1), secret1);
    let s2 = signature_for(signing_input(h2, c2), secret2);
    assert(is_split(t, h1, c1, s1));
    assert(is_split(t, h2, c2, s2));
    lemma_split_unique(t, h1, c1, s1, h2, c2, s2);
    lemma_decode_unique(h1, header1, header2);
    lemma_decode_unique(c1, claims1, claims2);
}

/// A session token is laid out as `header.claims.signature`, where header
/// and claims are the base64url of their JSON and the signature is the
/// base64url HMAC-SHA-256 tag of `header.claims` keyed with the whole secret,
/// whatever its length.
pub proof fn law_token_layout(header_json: Seq<u8>, claims_json: Seq<u8>, secret: Seq<u8>)
    ensures
        jwt_token(header_json, claims_json, secret) == b64url_encode(header_json) + seq![DOT]
            + b64url_encode(claims_json) + seq![DOT] + b64url_encode(
            hmac_sha256(
                secret,
                b64url_encode(header_json) + seq![DOT] + b64url_encode(claims_json),
            ),
        ),
{
}

/// A token is accepted under `secret` only when its last segment is the
/// base64url HMAC-SHA-256 tag of `header.claims`, keyed with the whole of
/// `secret`.
pub proof fn law_accepted_signature(
    token: Seq<u8>,
    secret: Seq<u8>,
    opened: Result<SignedToken, JwtError>,
)
    requires
        open_outcome(token, secret, opened),
        opened is Ok,
    ensures
        count_dots(token) == 2,
        token == token_split(token).0 + seq![DOT] + token_split(token).1 + seq![DOT]
            + b64url_encode(
            hmac_sha256(secret, token_split(token).0 + seq![DOT] + token_split(token).1),
        ),
{
}

/// Where the check of a signed token stands. The caller parses the JSON and
/// reads the clock; the library decides, in this order: header, claims, expiry.
pub enum VerifyState {
    /// The signature holds; the header JSON must be parsed.
    NeedHeader(SignedToken),
    /// The header is accepted; the claims JSON must be parsed.
    NeedClaims { claims_json: Vec<u8> },
    /// The claims must be checked against the current time.
    NeedClock { claims: Claims },
    /// The token is accepted with these claims.
    Accepted(Claims),
}

/// What the caller reports back.
pub enum VerifyEvent {
    /// The `alg` and `typ` fields of the parsed header.
    HeaderParsed { alg: String, typ: String },
    /// The parsed claims.
    ClaimsParsed(Claims),
    /// The current time, in seconds since the Unix epoch.
    ClockRead(usize),
}

/// The events that belong to each state.
pub open spec fn verify_step_defined(state: VerifyState, event: VerifyEvent) -> bool {
    match (state, event) {
        (VerifyState::NeedHeader(_), VerifyEvent::HeaderParsed { .. }) => true,
        (VerifyState::NeedClaims { .. }, VerifyEvent::ClaimsParsed(_)) => true,
        (VerifyState::NeedClock { .. }, VerifyEvent::ClockRead(_)) => true,
        _ => false,
    }
}

/// What `step_verify` answers.
pub open spec fn verify_step_outcome(
    state: VerifyState,
    event: VerifyEvent,
    res: Result<VerifyState, JwtError>,
) -> bool {
    match (state, event) {
        (VerifyState::NeedHeader(tok), VerifyEvent::HeaderParsed { alg, typ }) => if !(alg@
            == "HS256"@ && typ@ == "JWT"@) {
            res == Err::<VerifyState, JwtError>(JwtError::UnsupportedHeader)
        } else if !is_b64url(tok.claims_b64@) {
            res matches Err(JwtError::ClaimsEncoding(_))
        } else {
            res matches Ok(VerifyState::NeedClaims { claims_json }) && b64url_encode(claims_json@)
                == tok.claims_b64@
        },
        (VerifyState::NeedClaims { .. }, VerifyEvent::ClaimsParsed(claims)) => res == Ok::<
            VerifyState,
            JwtError,
        >(VerifyState::NeedClock { claims }),
        (VerifyState::NeedClock { claims }, VerifyEvent::ClockRead(now)) => if claims.exp <= now {
            res == Err::<VerifyState, JwtError>(JwtError::Expired)
        } else {
            res == Ok::<VerifyState, JwtError>(VerifyState::Accepted(claims))
        },
        _ => false,
    }
}

/// Takes the next step of checking a signed token.
pub fn step_verify(state: VerifyState, event: VerifyEvent) -> (res: Result<VerifyState, JwtError>)
    requires
        verify_step_defined(state, event),
    ensures
        verify_step_outcome(state, event, res),
{
    match state {
        VerifyState::NeedHeader(tok) => match event {
            VerifyEvent::HeaderParsed { alg, typ } => {
                match check_header(alg.as_str(), typ.as_str()) {
                    Err(e) => Err(e),
                    Ok(()) => match decode_claims(tok.claims_b64.as_slice()) {
                        Ok(claims_json) => Ok(VerifyState::NeedClaims { claims_json }),
                        Err(e) => Err(e),
                    },
                }
            },
            _ => Err(JwtError::UnsupportedHeader),
        },
        VerifyState::NeedClaims { .. } => match event {
            VerifyEvent::ClaimsParsed(claims) => Ok(VerifyState::NeedClock { claims }),
            _ => Err(JwtError::UnsupportedHeader),
        },
        VerifyState::NeedClock { claims } => match event {
            VerifyEvent::ClockRead(now) => match check_expiry(claims, now) {
                Ok(c) => Ok(VerifyState::Accepted(c)),
                Err(e) => Err(e),
            },
            _ => Err(JwtError::UnsupportedHeader),
        },
        VerifyState::Accepted(_) => Err(JwtError::UnsupportedHeader),
    }
}

/// A whole check of a token that `encode_jwt` made from header JSON
/// `header_json`, claims JSON `claims_json` and `secret`: opened under the
/// same secret, it asks for `header_json` to be parsed; given the parse of a
/// header naming `HS256` / `JWT` it asks for `claims_json` to be parsed;
/// given the parsed `claims` and the time `now`, it accepts the token with
/// exactly those claims when their expiry is after `now`, and refuses it as
/// expired otherwise.
pub proof fn law_verify_round_trip(
    header_json: Seq<u8>,
    claims_json: Seq<u8>,
    secret: Seq<u8>,
    alg: String,
    typ: String,
    claims: Claims,
    now: usize,
    opened: Result<SignedToken, JwtError>,
    after_header: Result<VerifyState, JwtError>,
    after_claims: Result<VerifyState, JwtError>,
    after_clock: Result<VerifyState, JwtError>,
)
    requires
        alg@ == "HS256"@,
        typ@ == "JWT"@,
        open_outcome(jwt_token(header_json, claims_json, secret), secret, opened),
        opened matches Ok(tok) ==> verify_step_outcome(
            VerifyState::NeedHeader(tok),
            VerifyEvent::HeaderParsed { alg, typ },
            after_header,
        ),
        after_header matches Ok(st) ==> verify_step_outcome(
            st,
            VerifyEvent::ClaimsParsed(claims),
            after_claims,
        ),
        after_claims matches Ok(st) ==> verify_step_outcome(
            st,
            VerifyEvent::ClockRead(now),
            after_clock,
        ),
    ensures
        opened matches Ok(tok) && tok.header_json@ == header_json,
        after_header matches Ok(VerifyState::NeedClaims { claims_json: parsed }) && parsed@
            == claims_json,
        after_claims == Ok::<VerifyState, JwtError>(VerifyState::NeedClock { claims }),
        claims.exp > now ==> after_clock == Ok::<VerifyState, JwtError>(
            VerifyState::Accepted(claims),
        ),
        claims.exp <= now ==> after_clock == Err::<VerifyState, JwtError>(JwtError::Expired),
{
    let h = b64url_encode(header_json);
    let c = b64url_encode(claims_json);
    let s = signature_for(signing_input(h, c), secret);
    let t = jwt_token(header_json, claims_json, secret);
    lemma_encode_dot_free(header_json);
    lemma_encode_dot_free(claims_json);
    lemma_encode_dot_free(hmac_sha256(secret, signing_input(h, c)));
    assert(is_split(t, h, c, s));
    lemma_split_count(t, h, c, s);
    lemma_token_split_is(t, h, c, s);
    assert(b64url_encode(header_json) == h);
    let tok = opened->Ok_0;
    lemma_decode_unique(h, tok.header_json@, header_json);
    assert(b64url_encode(claims_json) == c);
    let st = after_header->Ok_0;
    match st {
        VerifyState::NeedClaims { claims_json: parsed } => {
            lemma_decode_unique(c, parsed@, claims_json);
        },
        _ => {},
    }
}

} // verus!
