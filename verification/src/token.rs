//! The tokens that miners show.

use rand::Rng;
use vstd::prelude::*;

verus! {

/// The header of a request that carries the miner's token.
pub const MINER_TOKEN_HEADER: &'static str = "X-ZIESHA-MINER-TOKEN";

/// How long a new token is.
pub const MINER_TOKEN_LENGTH: usize = 30;

/// A byte that may stand in a header that is read as text: visible ASCII, a space or a tab.
pub open spec fn is_header_text_byte(b: u8) -> bool {
    32 <= b < 127 || b == 9
}

/// The text of a header's value: its bytes as ASCII, if all of them are text.
pub open spec fn header_text_of(value: Seq<u8>) -> Option<Seq<char>> {
    if forall|i: int| 0 <= i < value.len() ==> is_header_text_byte(#[trigger] value[i]) {
        Some(value.map_values(|b: u8| b as char))
    } else {
        None
    }
}

/// A text, or none, as a sequence of characters.
pub open spec fn text_view(text: Option<String>) -> Option<Seq<char>> {
    match text {
        Some(t) => Some(t@),
        None => None,
    }
}

/// Reads a header's value with `HeaderValue::from_bytes` and `HeaderValue::to_str`. Trusted:
/// both succeed exactly if every byte is visible ASCII, a space or a tab, and the text then has
/// these bytes as its characters.
#[verifier::external_body]
fn header_text(value: &[u8]) -> (r: Option<String>)
    ensures
        text_view(r) == header_text_of(value@),
{
    let value = hyper::header::HeaderValue::from_bytes(value).ok()?;
    value.to_str().map(|s| s.into()).ok()
}

/// The token that a request shows, where its header has a value.
pub fn fetch_miner_token(header: Option<&[u8]>) -> (r: Option<String>)
    ensures
        text_view(r) == match header {
            Some(value) => header_text_of(value@),
            None => None,
        },
{
    match header {
        Some(value) => header_text(value),
        None => None,
    }
}

/// An ASCII letter or digit.
pub open spec fn is_alphanumeric(c: char) -> bool {
    ||| '0' <= c <= '9'
    ||| 'a' <= c <= 'z'
    ||| 'A' <= c <= 'Z'
}

/// Draws a byte with `Rng::sample` from `rand::distributions::Alphanumeric`. Trusted: it is an
/// ASCII letter or digit. Which one it is, is left to chance.
#[verifier::external_body]
fn sample_alphanumeric() -> (b: u8)
    ensures
        is_alphanumeric(b as char),
{
    rand::thread_rng().sample(rand::distributions::Alphanumeric)
}

/// The text has the shape of a token: its length, and only ASCII letters and digits.
pub open spec fn is_miner_token(text: Seq<char>) -> bool {
    &&& text.len() == MINER_TOKEN_LENGTH
    &&& forall|i: int| 0 <= i < text.len() ==> is_alphanumeric(#[trigger] text[i])
}

/// The text of drawn bytes, one character for each.
pub fn token_text(draws: &Vec<u8>) -> (r: String)
    ensures
        r@ == draws@.map_values(|b: u8| b as char),
{
    let mut token = String::new();
    let mut i: usize = 0;
    while i < draws.len()
        invariant
            i <= draws@.len(),
            token@ == draws@.take(i as int).map_values(|b: u8| b as char),
        decreases draws@.len() - i,
    {
        token.push(draws[i] as char);
        i += 1;
    }
    assert(draws@.take(draws@.len() as int) =~= draws@);
    token
}

/// A new token, drawn at random.
pub fn generate_miner_token() -> (r: String)
    ensures
        is_miner_token(r@),
{
    let mut draws: Vec<u8> = Vec::new();
    let mut n: usize = 0;
    while n < MINER_TOKEN_LENGTH
        invariant
            n <= MINER_TOKEN_LENGTH,
            draws@.len() == n,
            forall|i: int| 0 <= i < draws@.len() ==> is_alphanumeric(#[trigger] draws@[i] as char),
        decreases MINER_TOKEN_LENGTH - n,
    {
        draws.push(sample_alphanumeric());
        n += 1;
    }
    token_text(&draws)
}

/// A token of the shape that is given out is accepted in a header as it is: the text read back
/// from its bytes is the token.
pub proof fn law_token_survives_header(token: Seq<char>)
    requires
        is_miner_token(token),
    ensures
        header_text_of(vstd::utf8::encode_utf8(token)) == Some(token),
{
    vstd::utf8::is_ascii_chars_encode_utf8(token);
    let bytes = vstd::utf8::encode_utf8(token);
    assert(bytes.map_values(|b: u8| b as char) =~= token);
}

/// A header is read as text exactly if each of its bytes is visible ASCII, a space or a tab, and
/// then character by character, however long it is.
pub proof fn law_header_is_read_whole(value: Seq<u8>)
    ensures
        header_text_of(value) is Some <==> forall|i: int|
            0 <= i < value.len() ==> 32 <= #[trigger] value[i] <= 126 || value[i] == 9,
        header_text_of(value) matches Some(text) ==> text.len() == value.len() && forall|i: int|
            0 <= i < value.len() ==> #[trigger] text[i] as int == value[i] as int,
{
    if header_text_of(value) is Some {
        assert forall|i: int| 0 <= i < value.len() implies 32 <= #[trigger] value[i] <= 126
            || value[i] == 9 by {
            assert(is_header_text_byte(value[i]));
        }
    }
}

/// A token is thirty ASCII letters and digits, and nothing else is one.
pub proof fn law_tokens_are_thirty_letters_and_digits(text: Seq<char>)
    ensures
        is_miner_token(text) <==> text.len() == 30 && forall|i: int|
            0 <= i < text.len() ==> {
                ||| '0' <= #[trigger] text[i] <= '9'
                ||| 'a' <= text[i] <= 'z'
                ||| 'A' <= text[i] <= 'Z'
            },
{
    if is_miner_token(text) {
        assert forall|i: int| 0 <= i < text.len() implies {
            ||| '0' <= #[trigger] text[i] <= '9'
            ||| 'a' <= text[i] <= 'z'
            ||| 'A' <= text[i] <= 'Z'
        } by {
            assert(is_alphanumeric(text[i]));
        }
    }
}

} // verus!
