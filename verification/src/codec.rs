//! URL-safe base64 without padding (RFC 4648, section 5), as used by the
//! segments of a session token.

use base64::engine::general_purpose::URL_SAFE_NO_PAD;
use base64::{DecodeError, Engine};
use crate::text::{decimal_digits, push_digits};
use vstd::prelude::*;

verus! {

/// The symbol that stands for the six-bit value `v` in the URL-safe alphabet.
pub open spec fn b64_symbol(v: int) -> u8 {
    if v < 26 {
        (65 + v) as u8
    } else if v < 52 {
        (97 + (v - 26)) as u8
    } else if v < 62 {
        (48 + (v - 52)) as u8
    } else if v == 62 {
        45u8
    } else {
        95u8
    }
}

/// The unpadded URL-safe base64 text of `data`: every three bytes become four
/// symbols, and a trailing group of one or two bytes becomes two or three.
pub open spec fn b64url_encode(data: Seq<u8>) -> Seq<u8>
    decreases data.len(),
{
    if data.len() == 0 {
        Seq::empty()
    } else if data.len() == 1 {
        seq![b64_symbol(data[0] as int / 4), b64_symbol((data[0] as int % 4) * 16)]
    } else if data.len() == 2 {
        seq![
            b64_symbol(data[0] as int / 4),
            b64_symbol((data[0] as int % 4) * 16 + data[1] as int / 16),
            b64_symbol((data[1] as int % 16) * 4),
        ]
    } else {
        seq![
            b64_symbol(data[0] as int / 4),
            b64_symbol((data[0] as int % 4) * 16 + data[1] as int / 16),
            b64_symbol((data[1] as int % 16) * 4 + data[2] as int / 64),
            b64_symbol(data[2] as int % 64),
        ] + b64url_encode(data.subrange(3, data.len() as int))
    }
}

/// `text` is the encoding of some byte string.
pub open spec fn is_b64url(text: Seq<u8>) -> bool {
    exists|data: Seq<u8>| #[trigger] b64url_encode(data) == text
}

/// A byte of the URL-safe alphabet.
pub open spec fn is_b64_symbol(b: u8) -> bool {
    (65 <= b <= 90) || (97 <= b <= 122) || (48 <= b <= 57) || b == 45 || b == 95
}

proof fn lemma_symbol(v: int)
    requires
        0 <= v < 64,
    ensures
        is_b64_symbol(b64_symbol(v)),
{
}

proof fn lemma_symbol_injective(v: int, w: int)
    requires
        0 <= v < 64,
        0 <= w < 64,
        b64_symbol(v) == b64_symbol(w),
    ensures
        v == w,
{
}

/// Every byte of an encoding belongs to the URL-safe alphabet.
pub proof fn lemma_encode_alphabet(data: Seq<u8>)
    ensures
        forall|i: int|
            0 <= i < b64url_encode(data).len() ==> is_b64_symbol(#[trigger] b64url_encode(data)[i]),
    decreases data.len(),
{
    if data.len() == 0 {
    } else if data.len() == 1 {
        lemma_symbol(data[0] as int / 4);
        lemma_symbol((data[0] as int % 4) * 16);
    } else if data.len() == 2 {
        lemma_symbol(data[0] as int / 4);
        lemma_symbol((data[0] as int % 4) * 16 + data[1] as int / 16);
        lemma_symbol((data[1] as int % 16) * 4);
    } else {
        let rest = data.subrange(3, data.len() as int);
        lemma_encode_alphabet(rest);
        lemma_symbol(data[0] as int / 4);
        lemma_symbol((data[0] as int % 4) * 16 + data[1] as int / 16);
        lemma_symbol((data[1] as int % 16) * 4 + data[2] as int / 64);
        lemma_symbol(data[2] as int % 64);
        let head = seq![
            b64_symbol(data[0] as int / 4),
            b64_symbol((data[0] as int % 4) * 16 + data[1] as int / 16),
            b64_symbol((data[1] as int % 16) * 4 + data[2] as int / 64),
            b64_symbol(data[2] as int % 64),
        ];
        assert forall|i: int|
            0 <= i < b64url_encode(data).len() implies is_b64_symbol(
                #[trigger] b64url_encode(data)[i],
            ) by {
            if i >= 4 {
                assert(b64url_encode(data)[i] == b64url_encode(rest)[i - 4]);
            } else {
                assert(b64url_encode(data)[i] == head[i]);
            }
        }
    }
}

/// The length of an encoding: four symbols per full group of three bytes,
/// plus two or three for a trailing partial group.
pub proof fn lemma_encode_len(data: Seq<u8>)
    ensures
        b64url_encode(data).len() == 4 * (data.len() / 3) + (if data.len() % 3 == 0 {
            0int
        } else {
            (data.len() % 3 + 1) as int
        }),
    decreases data.len(),
{
    if data.len() >= 3 {
        lemma_encode_len(data.subrange(3, data.len() as int));
    }
}

proof fn lemma_unpack(x: int, y: int, x2: int, y2: int)
    requires
        0 <= x < 256,
        0 <= x2 < 256,
        0 <= y < 256,
        0 <= y2 < 256,
        x / 4 == x2 / 4,
        (x % 4) * 16 + y / 16 == (x2 % 4) * 16 + y2 / 16,
    ensures
        x == x2,
        y / 16 == y2 / 16,
{
}

/// Two byte strings with the same encoding are equal.
pub proof fn lemma_encode_injective(a: Seq<u8>, b: Seq<u8>)
    requires
        b64url_encode(a) == b64url_encode(b),
    ensures
        a == b,
    decreases a.len(),
{
    lemma_encode_len(a);
    lemma_encode_len(b);
    let ea = b64url_encode(a);
    let eb = b64url_encode(b);
    if a.len() == 0 {
        assert(b.len() == 0);
        assert(a =~= b);
    } else {
        assert(b.len() > 0);
        assert(ea[0] == eb[0]);
        lemma_symbol_injective(a[0] as int / 4, b[0] as int / 4);
        assert(ea[1] == eb[1]);
        if a.len() == 1 || b.len() == 1 {
            assert(a.len() == 1 && b.len() == 1);
            lemma_symbol_injective((a[0] as int % 4) * 16, (b[0] as int % 4) * 16);
            assert(a[0] == b[0]);
            assert(a =~= b);
        } else {
            lemma_symbol_injective(
                (a[0] as int % 4) * 16 + a[1] as int / 16,
                (b[0] as int % 4) * 16 + b[1] as int / 16,
            );
            lemma_unpack(a[0] as int, a[1] as int, b[0] as int, b[1] as int);
            assert(ea[2] == eb[2]);
            if a.len() == 2 || b.len() == 2 {
                assert(a.len() == 2 && b.len() == 2);
                lemma_symbol_injective((a[1] as int % 16) * 4, (b[1] as int % 16) * 4);
                assert(a[1] == b[1]);
                assert(a =~= b);
            } else {
                lemma_symbol_injective(
                    (a[1] as int % 16) * 4 + a[2] as int / 64,
                    (b[1] as int % 16) * 4 + b[2] as int / 64,
                );
                assert(ea[3] == eb[3]);
                lemma_symbol_injective(a[2] as int % 64, b[2] as int % 64);
                assert(a[1] == b[1]);
                assert(a[2] == b[2]);
                let ra = a.subrange(3, a.len() as int);
                let rb = b.subrange(3, b.len() as int);
                assert(b64url_encode(ra) =~= ea.subrange(4, ea.len() as int));
                assert(b64url_encode(rb) =~= eb.subrange(4, eb.len() as int));
                lemma_encode_injective(ra, rb);
                assert(a.len() == b.len());
                assert forall|i: int| 0 <= i < a.len() implies a[i] == b[i] by {
                    if i >= 3 {
                        assert(a[i] == ra[i - 3]);
                        assert(b[i] == rb[i - 3]);
                    }
                }
                assert(a =~= b);
            }
        }
    }
}

/// The six-bit value of a symbol of the URL-safe alphabet: `A`..`Z` are
/// 0..25, `a`..`z` 26..51, `0`..`9` 52..61, `-` 62 and `_` 63.
pub open spec fn b64_symbol_value(b: u8) -> int {
    if 65 <= b <= 90 {
        b - 65
    } else if 97 <= b <= 122 {
        b - 71
    } else if 48 <= b <= 57 {
        b + 4
    } else if b == 45 {
        62
    } else {
        63
    }
}

/// The 24 bits that the four symbols from `4 * k` of `text` stand for.
pub open spec fn b64_quad_value(text: Seq<u8>, k: int) -> int {
    b64_symbol_value(text[4 * k]) * 262144 + b64_symbol_value(text[4 * k + 1]) * 4096
        + b64_symbol_value(text[4 * k + 2]) * 64 + b64_symbol_value(text[4 * k + 3])
}

/// The 24 bits of the three bytes from `3 * k` of `data`, first byte highest.
pub open spec fn byte_triple_value(data: Seq<u8>, k: int) -> int {
    data[3 * k] * 65536 + data[3 * k + 1] * 256 + data[3 * k + 2]
}

proof fn lemma_symbol_value(v: int)
    requires
        0 <= v < 64,
    ensures
        b64_symbol_value(b64_symbol(v)) == v,
{
}

/// An encoding carries the bits of its input in order: each full group of
/// three bytes is written as four symbols whose six-bit values, read in
/// order, give the same 24 bits; a trailing single byte is written as two
/// symbols giving its 8 bits followed by four zero bits, and a trailing pair
/// as three symbols giving its 16 bits followed by two zero bits.
pub proof fn law_encode_bits(data: Seq<u8>)
    ensures
        b64url_encode(data).len() == 4 * (data.len() / 3) + (if data.len() % 3 == 0 {
            0int
        } else {
            (data.len() % 3 + 1) as int
        }),
        forall|k: int|
            0 <= k < data.len() / 3 ==> #[trigger] b64_quad_value(b64url_encode(data), k)
                == byte_triple_value(data, k),
        data.len() % 3 == 1 ==> ({
            let e = b64url_encode(data);
            let n: int = (data.len() / 3) as int;
            b64_symbol_value(e[4 * n]) * 64 + b64_symbol_value(e[4 * n + 1]) == data[3 * n]
                * 16
        }),
        data.len() % 3 == 2 ==> ({
            let e = b64url_encode(data);
            let n: int = (data.len() / 3) as int;
            b64_symbol_value(e[4 * n]) * 4096 + b64_symbol_value(e[4 * n + 1]) * 64
                + b64_symbol_value(e[4 * n + 2]) == (data[3 * n] * 256 + data[3 * n + 1]) * 4
        }),
    decreases data.len(),
{
    lemma_encode_len(data);
    let e = b64url_encode(data);
    if data.len() == 1 {
        let x = data[0] as int;
        lemma_symbol_value(x / 4);
        lemma_symbol_value((x % 4) * 16);
    } else if data.len() == 2 {
        let x = data[0] as int;
        let y = data[1] as int;
        lemma_symbol_value(x / 4);
        lemma_symbol_value((x % 4) * 16 + y / 16);
        lemma_symbol_value((y % 16) * 4);
    } else if data.len() >= 3 {
        let x = data[0] as int;
        let y = data[1] as int;
        let z = data[2] as int;
        lemma_symbol_value(x / 4);
        lemma_symbol_value((x % 4) * 16 + y / 16);
        lemma_symbol_value((y % 16) * 4 + z / 64);
        lemma_symbol_value(z % 64);
        let rest = data.subrange(3, data.len() as int);
        let er = b64url_encode(rest);
        law_encode_bits(rest);
        assert(e == seq![
            b64_symbol(x / 4),
            b64_symbol((x % 4) * 16 + y / 16),
            b64_symbol((y % 16) * 4 + z / 64),
            b64_symbol(z % 64),
        ] + er);
        assert(b64_quad_value(e, 0) == byte_triple_value(data, 0));
        assert forall|k: int|
            0 <= k < data.len() / 3 implies #[trigger] b64_quad_value(e, k) == byte_triple_value(
                data,
                k,
            ) by {
            if k > 0 {
                assert(b64_quad_value(er, k - 1) == byte_triple_value(rest, k - 1));
                assert(e[4 * k] == er[4 * (k - 1)]);
                assert(e[4 * k + 1] == er[4 * (k - 1) + 1]);
                assert(e[4 * k + 2] == er[4 * (k - 1) + 2]);
                assert(e[4 * k + 3] == er[4 * (k - 1) + 3]);
                assert(data[3 * k] == rest[3 * (k - 1)]);
                assert(data[3 * k + 1] == rest[3 * (k - 1) + 1]);
                assert(data[3 * k + 2] == rest[3 * (k - 1) + 2]);
            }
        }
        let n: int = (data.len() / 3) as int;
        if data.len() % 3 != 0 {
            assert(rest.len() / 3 == n - 1);
            assert(e[4 * n] == er[4 * (n - 1)]);
            assert(e[4 * n + 1] == er[4 * (n - 1) + 1]);
            assert(data[3 * n] == rest[3 * (n - 1)]);
            if data.len() % 3 == 2 {
                assert(e[4 * n + 2] == er[4 * (n - 1) + 2]);
                assert(data[3 * n + 1] == rest[3 * (n - 1) + 1]);
            }
        }
    }
}

/// Once a decode has succeeded, its bytes are the only ones with that encoding.
pub proof fn lemma_decode_unique(text: Seq<u8>, data: Seq<u8>, other: Seq<u8>)
    requires
        b64url_encode(data) == text,
        b64url_encode(other) == text,
    ensures
        data == other,
{
    lemma_encode_injective(data, other);
}

/// Why a text is not a canonical unpadded URL-safe base64 encoding, as the
/// decoder reports it (offsets count input bytes).
#[derive(Clone, Copy, Debug, PartialEq, Eq, Structural)]
pub enum Base64Error {
    /// A byte outside the alphabet (or a `=`) at `offset`.
    InvalidByte { offset: usize, byte: u8 },
    /// A lone symbol in the last group; `length` counts the valid symbols.
    InvalidLength { length: usize },
    /// The last symbol at `offset` carries nonzero bits past the last byte.
    InvalidLastSymbol { offset: usize, byte: u8 },
    /// Padding where none may be.
    InvalidPadding,
}

/// The text a decoding error is reported with.
pub open spec fn base64_error_text(e: Base64Error) -> Seq<char> {
    match e {
                Base64Error::InvalidByte { offset, byte } => "Invalid symbol "@ + decimal_digits(
                    byte as nat,
                ) + ", offset "@ + decimal_digits(offset as nat) + "."@,
                Base64Error::InvalidLength { length } => "Invalid input length: "@
                    + decimal_digits(length as nat),
                Base64Error::InvalidLastSymbol { offset, byte } => "Invalid last symbol "@
                    + decimal_digits(byte as nat) + ", offset "@ + decimal_digits(offset as nat)
                    + "."@,
                Base64Error::InvalidPadding => "Invalid padding"@,
    }
}

impl Base64Error {
    /// The text the error is reported with.
    pub fn message(&self) -> (text: String)
        ensures
            text@ == base64_error_text(*self),
    {
        match self {
            Base64Error::InvalidByte { offset, byte } => {
                let mut text = String::from_str("Invalid symbol ");
                push_digits(&mut text, *byte as u64);
                text.append(", offset ");
                push_digits(&mut text, *offset as u64);
                text.append(".");
                text
            },
            Base64Error::InvalidLength { length } => {
                let mut text = String::from_str("Invalid input length: ");
                push_digits(&mut text, *length as u64);
                text
            },
            Base64Error::InvalidLastSymbol { offset, byte } => {
                let mut text = String::from_str("Invalid last symbol ");
                push_digits(&mut text, *byte as u64);
                text.append(", offset ");
                push_digits(&mut text, *offset as u64);
                text.append(".");
                text
            },
            Base64Error::InvalidPadding => String::from_str("Invalid padding"),
        }
    }
}

/// `Engine::encode` of `base64::engine::general_purpose::URL_SAFE_NO_PAD`
/// (crate `base64`): the RFC 4648 URL-safe alphabet without `=` padding.
/// Trusted to give exactly `b64url_encode` of its input, as ASCII bytes.
#[verifier::external_body]
pub(crate) fn encode_b64url(data: &[u8]) -> (text: Vec<u8>)
    ensures
        text@ == b64url_encode(data@),
{
    URL_SAFE_NO_PAD.encode(data).into_bytes()
}

/// `Engine::decode` of `base64::engine::general_purpose::URL_SAFE_NO_PAD`
/// (crate `base64`), its `DecodeError` carried over variant by variant. That
/// engine refuses `=` padding and nonzero trailing bits, so it accepts
/// exactly the canonical encodings; trusted to succeed on those inputs alone
/// and to hand back the bytes that encode to the input. Which error comes
/// back on a refused input is left unsaid.
#[verifier::external_body]
pub(crate) fn decode_b64url(text: &[u8]) -> (res: Result<Vec<u8>, Base64Error>)
    ensures
        res is Ok <==> is_b64url(text@),
        res matches Ok(data) ==> b64url_encode(data@) == text@,
{
    match URL_SAFE_NO_PAD.decode(text) {
        Ok(data) => Ok(data),
        Err(DecodeError::InvalidByte(offset, byte)) => Err(Base64Error::InvalidByte { offset, byte }),
        Err(DecodeError::InvalidLength(length)) => Err(Base64Error::InvalidLength { length }),
        Err(DecodeError::InvalidLastSymbol(offset, byte)) => Err(Base64Error::InvalidLastSymbol { offset, byte }),
        Err(DecodeError::InvalidPadding) => Err(Base64Error::InvalidPadding),
    }
}

} // verus!
