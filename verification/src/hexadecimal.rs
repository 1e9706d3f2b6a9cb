//! Bytes written as hexadecimal digits.

use crate::error::FromHexError;
use vstd::prelude::*;

verus! {

/// One of `0`-`9`, `a`-`f` and `A`-`F`.
pub open spec fn is_hex_digit(b: u8) -> bool {
    ||| '0' <= b as char <= '9'
    ||| 'a' <= b as char <= 'f'
    ||| 'A' <= b as char <= 'F'
}

/// The value of a digit; letters count in either case.
pub open spec fn hex_digit_value(b: u8) -> int {
    if '0' <= b as char <= '9' {
        b - '0' as int
    } else if 'a' <= b as char <= 'f' {
        b - 'a' as int + 10
    } else {
        b - 'A' as int + 10
    }
}

/// The bytes that digits write, two digits for each.
pub open spec fn hex_bytes(digits: Seq<u8>) -> Seq<u8> {
    Seq::new(
        digits.len() / 2,
        |i: int| (16 * hex_digit_value(digits[2 * i]) + hex_digit_value(digits[2 * i + 1])) as u8,
    )
}

/// Every byte is a digit.
pub open spec fn all_hex_digits(text: Seq<u8>) -> bool {
    forall|i: int| 0 <= i < text.len() ==> is_hex_digit(#[trigger] text[i])
}

/// Where the first byte stands that is no digit, or the length where all are.
pub open spec fn first_non_digit(text: Seq<u8>) -> int
    decreases text.len(),
{
    if text.len() == 0 || !is_hex_digit(text[0]) {
        0
    } else {
        1 + first_non_digit(text.drop_first())
    }
}

/// What a text decodes to.
pub open spec fn hex_decoded(text: Seq<u8>) -> Result<Seq<u8>, FromHexError> {
    if text.len() % 2 != 0 {
        Err(FromHexError::OddLength)
    } else if all_hex_digits(text) {
        Ok(hex_bytes(text))
    } else {
        let i = first_non_digit(text);
        Err(FromHexError::InvalidHexCharacter { c: text[i] as char, index: i as usize })
    }
}

/// What a text of characters decodes to: it is read as its bytes in UTF-8.
pub open spec fn hex_text(text: Seq<char>) -> Result<Seq<u8>, FromHexError> {
    hex_decoded(vstd::utf8::encode_utf8(text))
}

/// A result with its bytes as a sequence.
pub open spec fn bytes_view<E>(r: Result<Vec<u8>, E>) -> Result<Seq<u8>, E> {
    match r {
        Ok(bytes) => Ok(bytes@),
        Err(e) => Err(e),
    }
}

/// Decodes with `hex::decode`. Trusted: it refuses a text of odd length in bytes with
/// `OddLength`, and otherwise a text with a byte that is no hexadecimal digit with that byte
/// and its place, the first one where there are several; any other text it turns into one byte
/// for each two digits, the first digit counting sixteenfold.
#[verifier::external_body]
pub(crate) fn hex_decode(text: &str) -> (r: Result<Vec<u8>, FromHexError>)
    ensures
        bytes_view(r) == hex_text(text@),
{
    match hex::decode(text) {
        Ok(bytes) => Ok(bytes),
        Err(hex::FromHexError::InvalidHexCharacter { c, index }) => {
            Err(FromHexError::InvalidHexCharacter { c, index })
        },
        Err(hex::FromHexError::OddLength) => Err(FromHexError::OddLength),
        Err(hex::FromHexError::InvalidStringLength) => Err(FromHexError::InvalidStringLength),
    }
}

/// `first_non_digit` is a place in the text, or its end; each byte before it is a digit, and the
/// byte there is none.
proof fn lemma_first_non_digit(text: Seq<u8>)
    ensures
        0 <= first_non_digit(text) <= text.len(),
        forall|i: int| 0 <= i < first_non_digit(text) ==> is_hex_digit(#[trigger] text[i]),
        first_non_digit(text) < text.len() ==> !is_hex_digit(text[first_non_digit(text)]),
    decreases text.len(),
{
    if text.len() > 0 && is_hex_digit(text[0]) {
        let rest = text.drop_first();
        lemma_first_non_digit(rest);
        assert forall|i: int| 0 <= i < first_non_digit(text) implies is_hex_digit(
            #[trigger] text[i],
        ) by {
            if i > 0 {
                assert(rest[i - 1] == text[i]);
            }
        }
    }
}

/// A text decodes exactly if it has an even number of bytes and each is a hexadecimal digit, and
/// then to half as many bytes as it has digits. Otherwise, with an even number of bytes, the
/// error points at a byte that is no digit and has only digits before it.
pub proof fn law_hex_decodes(text: Seq<u8>)
    requires
        text.len() <= usize::MAX,
    ensures
        hex_decoded(text) is Ok <==> text.len() % 2 == 0 && all_hex_digits(text),
        hex_decoded(text) matches Ok(bytes) ==> 2 * bytes.len() == text.len(),
        text.len() % 2 != 0 ==> hex_decoded(text) == Err::<Seq<u8>, FromHexError>(
            FromHexError::OddLength,
        ),
        text.len() % 2 == 0 && !all_hex_digits(text) ==> (hex_decoded(text) matches Err(e) && e
            is InvalidHexCharacter),
        hex_decoded(text) matches Err(FromHexError::InvalidHexCharacter { c, index }) ==> {
            &&& index < text.len()
            &&& c == text[index as int] as char
            &&& !is_hex_digit(text[index as int])
            &&& forall|i: int| 0 <= i < index ==> is_hex_digit(#[trigger] text[i])
        },
{
    lemma_first_non_digit(text);
}

/// Of each byte that a text decodes to, the first of its two digits gives the upper half and the
/// second the lower, letters standing for ten and up in either case.
pub proof fn law_digits_are_halves_of_bytes(text: Seq<u8>, i: int)
    requires
        hex_decoded(text) is Ok,
        0 <= i,
        2 * i + 1 < text.len(),
    ensures
        ({
            let byte = hex_decoded(text)->Ok_0[i] as int;
            let upper = text[2 * i] as int;
            let lower = text[2 * i + 1] as int;
            &&& 48 <= upper <= 57 ==> byte / 16 == upper - 48
            &&& 97 <= upper <= 102 ==> byte / 16 == upper - 87
            &&& 65 <= upper <= 70 ==> byte / 16 == upper - 55
            &&& 48 <= lower <= 57 ==> byte % 16 == lower - 48
            &&& 97 <= lower <= 102 ==> byte % 16 == lower - 87
            &&& 65 <= lower <= 70 ==> byte % 16 == lower - 55
        }),
{
    assert(is_hex_digit(text[2 * i]));
    assert(is_hex_digit(text[2 * i + 1]));
}

} // verus!
