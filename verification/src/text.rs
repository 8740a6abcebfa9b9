//! Text forms of numbers and identifiers used in response messages.

use vstd::prelude::*;

verus! {

/// The decimal digit for `d` (`0 <= d < 10`).
pub open spec fn digit_char(d: int) -> char {
    (48 + d) as char
}

/// The decimal digits of `n`, most significant first, without leading zeros.
pub open spec fn decimal_digits(n: nat) -> Seq<char>
    decreases n,
{
    if n < 10 {
        seq![digit_char(n as int)]
    } else {
        decimal_digits(n / 10).push(digit_char((n % 10) as int))
    }
}

/// The decimal text of `n`, with a leading `-` when negative.
pub open spec fn decimal(n: int) -> Seq<char> {
    if n < 0 {
        seq!['-'] + decimal_digits((-n) as nat)
    } else {
        decimal_digits(n as nat)
    }
}

/// `c` is one of `0`..`9`.
pub open spec fn is_decimal_char(c: char) -> bool {
    48 <= c as int && c as int <= 57
}

/// The number that a string of decimal digits reads as, most significant
/// digit first (each character counting as its code minus that of `0`).
pub open spec fn numeral_value(s: Seq<char>) -> int
    decreases s.len(),
{
    if s.len() == 0 {
        0
    } else {
        numeral_value(s.drop_last()) * 10 + (s.last() as int - 48)
    }
}

/// `decimal_digits(n)` is the decimal numeral of `n`: a nonempty string of
/// the characters `0`..`9` that reads back as `n`, with no leading zero
/// unless `n` is zero (so `10` is written `"10"`).
pub proof fn law_decimal_digits_numeral(n: nat)
    ensures
        decimal_digits(n).len() >= 1,
        forall|i: int|
            0 <= i < decimal_digits(n).len() ==> is_decimal_char(#[trigger] decimal_digits(n)[i]),
        numeral_value(decimal_digits(n)) == n,
        n > 0 ==> decimal_digits(n)[0] != '0',
    decreases n,
{
    let d = decimal_digits(n);
    if n < 10 {
        assert(d.drop_last() =~= Seq::<char>::empty());
        assert(d[0] as int == 48 + n);
        assert(numeral_value(d.drop_last()) == 0);
    } else {
        let q = n / 10;
        law_decimal_digits_numeral(q);
        let e = decimal_digits(q);
        assert(d.drop_last() =~= e);
        assert(d.last() as int == 48 + n % 10);
        assert(q * 10 + n % 10 == n);
        assert forall|i: int| 0 <= i < d.len() implies is_decimal_char(#[trigger] d[i]) by {
            if i < e.len() {
                assert(d[i] == e[i]);
            }
        }
        assert(d[0] == e[0]);
    }
}

/// `decimal(n)` is the signed decimal numeral of `n`: the numeral of `n`
/// itself when `n` is not negative, otherwise `-` followed by the numeral of `-n`.
pub proof fn law_decimal_numeral(n: int)
    ensures
        n >= 0 ==> numeral_value(decimal(n)) == n,
        n < 0 ==> decimal(n)[0] == '-' && numeral_value(decimal(n).skip(1)) == -n,
        n < 0 ==> decimal(n).skip(1)[0] != '0',
        forall|i: int|
            (if n < 0 {
                1int
            } else {
                0int
            }) <= i < decimal(n).len() ==> is_decimal_char(#[trigger] decimal(n)[i]),
{
    if n >= 0 {
        law_decimal_digits_numeral(n as nat);
    } else {
        let m = (-n) as nat;
        law_decimal_digits_numeral(m);
        assert(decimal(n).skip(1) =~= decimal_digits(m));
        assert forall|i: int| 1 <= i < decimal(n).len() implies is_decimal_char(
            #[trigger] decimal(n)[i],
        ) by {
            assert(decimal(n)[i] == decimal_digits(m)[i - 1]);
        }
    }
}

/// The lower-case hexadecimal digit for `d` (`0 <= d < 16`).
pub open spec fn hex_char(d: int) -> char {
    if d < 10 {
        (48 + d) as char
    } else {
        (87 + d) as char
    }
}

/// The lowest `width` hexadecimal digits of `v`, most significant first.
pub open spec fn hex_digits(v: nat, width: nat) -> Seq<char>
    decreases width,
{
    if width == 0 {
        Seq::empty()
    } else {
        hex_digits(v / 16, (width - 1) as nat).push(hex_char((v % 16) as int))
    }
}

/// The hyphenated form `8-4-4-4-12` of the identifier whose big-endian value is `id`.
pub open spec fn uuid_text(id: u128) -> Seq<char> {
    let h = hex_digits(id as nat, 32);
    h.subrange(0, 8) + seq!['-'] + h.subrange(8, 12) + seq!['-'] + h.subrange(12, 16) + seq!['-']
        + h.subrange(16, 20) + seq!['-'] + h.subrange(20, 32)
}

/// `c` is one of `0`..`9` or `a`..`f`.
pub open spec fn is_lower_hex_char(c: char) -> bool {
    (48 <= c as int && c as int <= 57) || (97 <= c as int && c as int <= 102)
}

/// The value of a lower-case hexadecimal digit.
pub open spec fn hex_char_value(c: char) -> int {
    if c as int <= 57 {
        c as int - 48
    } else {
        c as int - 87
    }
}

/// The number that a string of hexadecimal digits reads as, most
/// significant digit first.
pub open spec fn hex_value(s: Seq<char>) -> int
    decreases s.len(),
{
    if s.len() == 0 {
        0
    } else {
        hex_value(s.drop_last()) * 16 + hex_char_value(s.last())
    }
}

/// Sixteen to the power `w`.
pub open spec fn pow16(w: nat) -> nat
    decreases w,
{
    if w == 0 {
        1
    } else {
        16 * pow16((w - 1) as nat)
    }
}

/// `hex_digits(v, width)` is `v` modulo `16^width`, written in exactly
/// `width` lower-case hexadecimal digits (zero-padded on the left).
pub proof fn law_hex_digits_value(v: nat, width: nat)
    ensures
        hex_digits(v, width).len() == width,
        forall|i: int|
            0 <= i < width ==> is_lower_hex_char(#[trigger] hex_digits(v, width)[i]),
        hex_value(hex_digits(v, width)) == v % pow16(width),
    decreases width,
{
    if width > 0 {
        let w1 = (width - 1) as nat;
        law_hex_digits_value(v / 16, w1);
        let d = hex_digits(v, width);
        let e = hex_digits(v / 16, w1);
        assert(d.drop_last() =~= e);
        assert forall|i: int| 0 <= i < width implies is_lower_hex_char(#[trigger] d[i]) by {
            if i < w1 {
                assert(d[i] == e[i]);
            }
        }
        assert(pow16(w1) > 0) by {
            lemma_pow16_positive(w1);
        }
        vstd::arithmetic::div_mod::lemma_breakdown(v as int, 16, pow16(w1) as int);
    }
}

proof fn lemma_pow16_positive(w: nat)
    ensures
        pow16(w) > 0,
    decreases w,
{
    if w > 0 {
        lemma_pow16_positive((w - 1) as nat);
    }
}

/// The text of an identifier is 36 characters: lower-case hexadecimal
/// digits in groups of 8, 4, 4, 4 and 12, parted by `-`; the 32 digits,
/// read in order, give back the identifier.
pub proof fn law_uuid_text(id: u128)
    ensures
        uuid_text(id).len() == 36,
        uuid_text(id)[8] == '-' && uuid_text(id)[13] == '-' && uuid_text(id)[18] == '-'
            && uuid_text(id)[23] == '-',
        forall|i: int|
            0 <= i < 36 && i != 8 && i != 13 && i != 18 && i != 23 ==> is_lower_hex_char(
                #[trigger] uuid_text(id)[i],
            ),
        hex_value(
            uuid_text(id).subrange(0, 8) + uuid_text(id).subrange(9, 13) + uuid_text(id).subrange(
                14,
                18,
            ) + uuid_text(id).subrange(19, 23) + uuid_text(id).subrange(24, 36),
        ) == id,
{
    let h = hex_digits(id as nat, 32);
    law_hex_digits_value(id as nat, 32);
    let t = uuid_text(id);
    assert forall|i: int|
        0 <= i < 36 && i != 8 && i != 13 && i != 18 && i != 23 implies is_lower_hex_char(
            #[trigger] t[i],
        ) by {
        if i < 8 {
            assert(t[i] == h[i]);
        } else if i < 13 {
            assert(t[i] == h[i - 1]);
        } else if i < 18 {
            assert(t[i] == h[i - 2]);
        } else if i < 23 {
            assert(t[i] == h[i - 3]);
        } else {
            assert(t[i] == h[i - 4]);
        }
    }
    assert(t.subrange(0, 8) + t.subrange(9, 13) + t.subrange(14, 18) + t.subrange(19, 23)
        + t.subrange(24, 36) =~= h);
    assert(pow16(32) == 0x1_0000_0000_0000_0000_0000_0000_0000_0000nat) by {
        reveal_with_fuel(pow16, 33);
    }
}

/// The one-character text of the decimal digit `d`.
fn digit_str(d: u64) -> (text: &'static str)
    requires
        d < 10,
    ensures
        text@ == seq![digit_char(d as int)],
{
    proof {
        reveal_strlit("0");
        reveal_strlit("1");
        reveal_strlit("2");
        reveal_strlit("3");
        reveal_strlit("4");
        reveal_strlit("5");
        reveal_strlit("6");
        reveal_strlit("7");
        reveal_strlit("8");
        reveal_strlit("9");
    }
    match d {
        0 => "0",
        1 => "1",
        2 => "2",
        3 => "3",
        4 => "4",
        5 => "5",
        6 => "6",
        7 => "7",
        8 => "8",
        _ => "9",
    }
}

/// Appends the decimal digits of `n` to `text`.
pub fn push_digits(text: &mut String, n: u64)
    ensures
        final(text)@ == old(text)@ + decimal_digits(n as nat),
    decreases n,
{
    if n >= 10 {
        push_digits(text, n / 10);
    }
    text.append(digit_str(n % 10));
    assert(text@ =~= old(text)@ + decimal_digits(n as nat));
}

/// Appends the decimal text of `n` to `text`.
pub fn push_decimal(text: &mut String, n: i32)
    ensures
        final(text)@ == old(text)@ + decimal(n as int),
{
    if n < 0 {
        proof {
            reveal_strlit("-");
        }
        text.append("-");
        let magnitude: u64 = (-(n as i64)) as u64;
        push_digits(text, magnitude);
        assert(text@ =~= old(text)@ + decimal(n as int));
    } else {
        push_digits(text, n as u64);
    }
}

/// `uuid::Uuid::from_u128` (big-endian) then `ToString::to_string`, whose
/// `Display` is the lower-case hyphenated form (crate `uuid`); trusted to be
/// `uuid_text(id)`.
#[verifier::external_body]
pub(crate) fn uuid_string(id: u128) -> (text: String)
    ensures
        text@ == uuid_text(id),
{
    uuid::Uuid::from_u128(id).to_string()
}

} // verus!
