//! Lower-case hexadecimal text, the working form of a module image while it is
//! being patched. Text is held as ASCII bytes.
use vstd::prelude::*;

verus! {

/// The ASCII character of a nibble in lower-case hexadecimal.
pub open spec fn hex_digit(n: u8) -> u8 {
    if n < 10 {
        (48 + n) as u8
    } else {
        (87 + n) as u8
    }
}

/// `c` is a hexadecimal digit, in either case.
pub open spec fn is_hex_char(c: u8) -> bool {
    (48 <= c <= 57) || (97 <= c <= 102) || (65 <= c <= 70)
}

/// `c` is a lower-case hexadecimal digit.
pub open spec fn is_lower_hex_char(c: u8) -> bool {
    (48 <= c <= 57) || (97 <= c <= 102)
}

/// The value of a hexadecimal digit.
pub open spec fn hex_value(c: u8) -> u8 {
    if 48 <= c <= 57 {
        (c - 48) as u8
    } else if 97 <= c <= 102 {
        (c - 87) as u8
    } else {
        (c - 55) as u8
    }
}

/// Lower-case hexadecimal text of `b`: two digits per byte, high nibble first.
pub open spec fn hex_text(b: Seq<u8>) -> Seq<u8> {
    Seq::new(
        2 * b.len(),
        |i: int|
            if i % 2 == 0 {
                hex_digit(b[i / 2] / 16)
            } else {
                hex_digit(b[i / 2] % 16)
            },
    )
}

/// Text that decodes: an even number of hexadecimal digits.
pub open spec fn is_hex_text(t: Seq<u8>) -> bool {
    t.len() % 2 == 0 && forall|i: int| 0 <= i < t.len() ==> is_hex_char(#[trigger] t[i])
}

/// The bytes that hexadecimal text stands for, two digits per byte.
pub open spec fn unhex(t: Seq<u8>) -> Seq<u8> {
    Seq::new(
        t.len() / 2,
        |i: int| (hex_value(t[2 * i]) * 16 + hex_value(t[2 * i + 1])) as u8,
    )
}

pub proof fn lemma_hex_digit(n: u8)
    requires
        n < 16,
    ensures
        is_lower_hex_char(hex_digit(n)),
        is_hex_char(hex_digit(n)),
        hex_value(hex_digit(n)) == n,
{
}

/// Decoding even-length lower-case hexadecimal text and encoding the bytes
/// again gives back the same text.
pub proof fn lemma_lower_hex_round_trip(t: Seq<u8>)
    requires
        t.len() % 2 == 0,
        forall|i: int| 0 <= i < t.len() ==> is_lower_hex_char(#[trigger] t[i]),
    ensures
        hex_text(unhex(t)) == t,
{
    let b = unhex(t);
    let h = hex_text(b);
    assert forall|i: int| 0 <= i < t.len() implies #[trigger] h[i] == t[i] by {
        let k = i / 2;
        let hi = hex_value(t[2 * k]);
        let lo = hex_value(t[2 * k + 1]);
        assert(is_lower_hex_char(t[2 * k]) && is_lower_hex_char(t[2 * k + 1]));
        assert(hi < 16 && lo < 16);
        assert(b[k] == hi * 16 + lo);
        assert((hi * 16 + lo) / 16 == hi && (hi * 16 + lo) % 16 == lo) by (nonlinear_arith)
            requires
                hi < 16,
                lo < 16,
        ;
        if i % 2 == 0 {
            assert(i == 2 * k);
        } else {
            assert(i == 2 * k + 1);
        }
    }
    assert(h =~= t);
}

/// Encoding any bytes as hexadecimal text and decoding that text gives back
/// the same bytes.
pub proof fn lemma_hex_round_trip(b: Seq<u8>)
    ensures
        is_hex_text(hex_text(b)),
        unhex(hex_text(b)) == b,
{
    let t = hex_text(b);
    assert forall|i: int| 0 <= i < t.len() implies is_hex_char(#[trigger] t[i]) by {
        lemma_hex_digit(b[i / 2] / 16);
        lemma_hex_digit(b[i / 2] % 16);
    }
    assert(t.len() % 2 == 0);
    let u = unhex(t);
    assert forall|i: int| 0 <= i < b.len() implies #[trigger] u[i] == b[i] by {
        assert((2 * i) / 2 == i);
        assert((2 * i + 1) / 2 == i);
        assert((2 * i) % 2 == 0);
        assert((2 * i + 1) % 2 == 1);
        lemma_hex_digit(b[i] / 16);
        lemma_hex_digit(b[i] % 16);
        assert((b[i] / 16) * 16 + b[i] % 16 == b[i]);
    }
    assert(u =~= b);
}

/// Declared so that a decoding failure of the `hex` crate can be carried.
#[verifier::external_type_specification]
#[verifier::external_body]
pub struct ExFromHexError(hex::FromHexError);

/// Relies on `hex::encode`: lower-case digits, two per byte, high nibble
/// first, with no separators.
#[verifier::external_body]
pub(crate) fn encode_hex(data: &[u8]) -> (r: Vec<u8>)
    ensures
        r@ == hex_text(data@),
{
    hex::encode(data).into_bytes()
}

/// Relies on `hex::decode`: it fails exactly on text of odd length or with a
/// character that is not a hexadecimal digit (of either case), and otherwise
/// turns each pair of digits into one byte, high nibble first.
#[verifier::external_body]
pub(crate) fn decode_hex(text: &[u8]) -> (r: Result<Vec<u8>, hex::FromHexError>)
    ensures
        r.is_ok() == is_hex_text(text@),
        r matches Ok(v) ==> v@ == unhex(text@),
{
    hex::decode(text)
}

} // verus!
