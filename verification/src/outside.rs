//! What the bridge takes from other crates and from the standard library's Unicode and
//! UTF-8 code. The contracts in this file are believed, not proved; each names the
//! function it speaks of.

use base64::Engine;
use vstd::prelude::*;
use vstd::string::*;
use vstd::utf8::*;

use crate::number::digit_char;
use crate::text::texts_of;

verus! {

// ---------------------------------------------------------------------------
// UTF-8 and Unicode
// ---------------------------------------------------------------------------

/// `String::from_utf8`: the text that `bytes` encode, where they are valid UTF-8.
#[verifier::external_body]
pub(crate) fn utf8_text(bytes: Vec<u8>) -> (text: Option<String>)
    ensures
        match text {
            Some(t) => valid_utf8(bytes@) && t@ == decode_utf8(bytes@),
            None => !valid_utf8(bytes@),
        },
{
    String::from_utf8(bytes).ok()
}

/// What `String::from_utf8_lossy` makes of bytes.
pub uninterp spec fn utf8_lossy(bytes: Seq<u8>) -> Seq<char>;

/// `String::from_utf8_lossy`: valid UTF-8 is decoded; what replaces the rest is left to
/// the standard library.
#[verifier::external_body]
pub(crate) fn utf8_text_lossy(bytes: &[u8]) -> (text: String)
    ensures
        text@ == utf8_lossy(bytes@),
        valid_utf8(bytes@) ==> text@ == decode_utf8(bytes@),
{
    String::from_utf8_lossy(bytes).to_string()
}

/// What `str::to_lowercase` makes of a text.
pub uninterp spec fn unicode_lowercase(text: Seq<char>) -> Seq<char>;

/// `str::to_lowercase`: a function of the text alone; a text of ASCII characters gets
/// each capital letter made small and nothing else changed.
#[verifier::external_body]
pub(crate) fn to_lowercase(text: &str) -> (lower: String)
    ensures
        lower@ == unicode_lowercase(text@),
        is_ascii_chars(text@) ==> lower@ == crate::text::ascii_lowered(text@),
{
    text.to_lowercase()
}

/// How the `Debug` format writes a list of texts.
pub uninterp spec fn debug_list(list: Seq<Seq<char>>) -> Seq<char>;

/// The `Debug` format of `Vec<String>`.
#[verifier::external_body]
pub(crate) fn list_debug_text(list: &Vec<String>) -> (text: String)
    ensures
        text@ == debug_list(texts_of(list@)),
{
    format!("{:?}", list)
}

// ---------------------------------------------------------------------------
// MD5
// ---------------------------------------------------------------------------

/// The MD5 digest of `data`, written in hexadecimal.
pub uninterp spec fn md5_hex(data: Seq<u8>) -> Seq<char>;

/// A small hexadecimal digit.
pub open spec fn small_hex(c: char) -> bool {
    '0' <= c <= '9' || 'a' <= c <= 'f'
}

/// `md5::compute`, its digest written with `{:x}`: two small hexadecimal digits for
/// each of the sixteen bytes.
#[verifier::external_body]
pub(crate) fn md5_text(data: &[u8]) -> (digest: String)
    ensures
        digest@ == md5_hex(data@),
        digest@.len() == 32,
        forall|k: int| 0 <= k < 32 ==> small_hex(#[trigger] digest@[k]),
{
    format!("{:x}", md5::compute(data))
}

/// A digest in the making.
#[verifier::external_type_specification]
#[verifier::external_body]
pub struct ExContext(md5::Context);

/// What a digest in the making has taken in so far.
pub uninterp spec fn consumed(context: md5::Context) -> Seq<u8>;

/// `md5::Context::new`: a digest of nothing yet.
#[verifier::external_body]
pub(crate) fn new_context() -> (context: md5::Context)
    ensures
        consumed(context) == Seq::<u8>::empty(),
{
    md5::Context::new()
}

/// `md5::Context::consume`: takes in more bytes, after those before.
#[verifier::external_body]
pub(crate) fn consume(context: &mut md5::Context, data: &[u8])
    ensures
        consumed(*final(context)) == consumed(*old(context)) + data@,
{
    context.consume(data)
}

/// `md5::Context::compute`, written with `{:x}`: the digest of all bytes that were taken
/// in, however they were cut, as `md5::compute` gives it of them at once.
#[verifier::external_body]
pub(crate) fn context_digest(context: md5::Context) -> (digest: String)
    ensures
        digest@ == md5_hex(consumed(context)),
{
    format!("{:x}", context.compute())
}

// ---------------------------------------------------------------------------
// JSON
// ---------------------------------------------------------------------------

/// The map that pairs list; of two with one key the later counts.
pub open spec fn listed_map(list: Seq<(String, i64)>) -> Map<Seq<char>, i64>
    decreases list.len(),
{
    if list.len() == 0 {
        Map::empty()
    } else {
        listed_map(list.drop_last()).insert(list.last().0@, list.last().1)
    }
}

/// The map of texts that pairs list; of two with one key the later counts.
pub open spec fn listed_texts(list: Seq<(String, String)>) -> Map<Seq<char>, Seq<char>>
    decreases list.len(),
{
    if list.len() == 0 {
        Map::empty()
    } else {
        listed_texts(list.drop_last()).insert(list.last().0@, list.last().1@)
    }
}

/// The numbers by name that a JSON text stands for, where it is an object of 64-bit
/// integers.
pub uninterp spec fn marks_in(text: Seq<char>) -> Option<Map<Seq<char>, i64>>;

/// The texts by name that a JSON text stands for, where it is an object of texts.
pub uninterp spec fn keys_in(text: Seq<char>) -> Option<Map<Seq<char>, Seq<char>>>;

/// `serde_json::from_str` into a `HashMap<String, i64>`. In which order the pairs come is
/// left open.
#[verifier::external_body]
pub(crate) fn parse_marks(text: &str) -> (marks: Option<Vec<(String, i64)>>)
    ensures
        match marks {
            Some(list) => marks_in(text@) == Some(listed_map(list@)),
            None => marks_in(text@) is None,
        },
{
    match serde_json::from_str::<std::collections::HashMap<String, i64>>(text) {
        Ok(map) => Some(map.into_iter().collect()),
        Err(_) => None,
    }
}

/// `serde_json::to_string_pretty` of a map from texts to integers. It does not fail, and
/// `serde_json::from_str` reads the map back, also with the white space of a line break
/// behind it. In which order the pairs are written is left open.
#[verifier::external_body]
pub(crate) fn write_marks(marks: &Vec<(String, i64)>) -> (text: Option<String>)
    ensures
        text is Some,
        marks_in(text->0@ + "\n"@) == Some(listed_map(marks@)),
{
    let map: std::collections::HashMap<&str, i64> =
        marks.iter().map(|pair| (pair.0.as_str(), pair.1)).collect();
    serde_json::to_string_pretty(&map).ok()
}

/// `serde_json::from_str` into a `HashMap<String, String>`. In which order the pairs come
/// is left open.
#[verifier::external_body]
pub(crate) fn parse_keys(text: &str) -> (keys: Option<Vec<(String, String)>>)
    ensures
        match keys {
            Some(list) => keys_in(text@) == Some(listed_texts(list@)),
            None => keys_in(text@) is None,
        },
{
    match serde_json::from_str::<std::collections::HashMap<String, String>>(text) {
        Ok(map) => Some(map.into_iter().collect()),
        Err(_) => None,
    }
}

// ---------------------------------------------------------------------------
// Base64
// ---------------------------------------------------------------------------

/// The URL-safe Base64 text of `data`, without padding.
pub uninterp spec fn base64url(data: Seq<u8>) -> Seq<char>;

/// The bytes that a URL-safe Base64 text without padding stands for.
pub uninterp spec fn base64url_decoded(text: Seq<char>) -> Option<Seq<u8>>;

/// The bytes that a padded Base64 text stands for, or what is wrong with it.
pub uninterp spec fn base64_decoded(text: Seq<char>) -> Result<Seq<u8>, Seq<char>>;

/// The number of characters that Base64 without padding takes for `n` bytes.
pub open spec fn base64_len(n: nat) -> nat {
    n / 3 * 4 + if n % 3 == 0 {
        0nat
    } else {
        n % 3 + 1
    }
}

/// A character of the URL-safe Base64 alphabet.
pub open spec fn base64url_char(c: char) -> bool {
    '0' <= c <= '9' || 'a' <= c <= 'z' || 'A' <= c <= 'Z' || c == '-' || c == '_'
}

/// `Engine::encode` of `URL_SAFE_NO_PAD`: the length, the alphabet, and that the same
/// engine decodes the text to the bytes it came from. The bound keeps the text within
/// what a `String` can hold.
#[verifier::external_body]
pub(crate) fn base64url_encode(data: &[u8]) -> (text: String)
    requires
        data@.len() <= usize::MAX / 4,
    ensures
        text@ == base64url(data@),
        text@.len() == base64_len(data@.len()),
        forall|k: int| 0 <= k < text@.len() ==> base64url_char(#[trigger] text@[k]),
        base64url_decoded(text@) == Some(data@),
{
    base64::engine::general_purpose::URL_SAFE_NO_PAD.encode(data)
}

/// `Engine::decode` of `URL_SAFE_NO_PAD`.
#[verifier::external_body]
pub(crate) fn base64url_decode(text: &str) -> (data: Option<Vec<u8>>)
    ensures
        match data {
            Some(d) => base64url_decoded(text@) == Some(d@),
            None => base64url_decoded(text@) is None,
        },
{
    base64::engine::general_purpose::URL_SAFE_NO_PAD.decode(text).ok()
}

/// `Engine::decode` of `STANDARD`; an error is handed on as its message.
#[verifier::external_body]
pub(crate) fn base64_decode(text: &str) -> (data: Result<Vec<u8>, String>)
    ensures
        match data {
            Ok(d) => base64_decoded(text@) == Ok::<Seq<u8>, Seq<char>>(d@),
            Err(e) => base64_decoded(text@) == Err::<Seq<u8>, Seq<char>>(e@),
        },
{
    base64::engine::general_purpose::STANDARD.decode(text).map_err(|error| error.to_string())
}

// ---------------------------------------------------------------------------
// Zstandard
// ---------------------------------------------------------------------------

/// What the Zstandard frames in `blob` hold, where they can be decompressed.
pub uninterp spec fn zstd_decoded(blob: Seq<u8>) -> Option<Seq<u8>>;

/// `zstd::decode_all` on bytes in memory.
#[verifier::external_body]
pub(crate) fn zstd_decode(blob: &[u8]) -> (data: Option<Vec<u8>>)
    ensures
        match data {
            Some(d) => zstd_decoded(blob@) == Some(d@),
            None => zstd_decoded(blob@) is None,
        },
{
    zstd::decode_all(blob).ok()
}

// ---------------------------------------------------------------------------
// Percent encoding
// ---------------------------------------------------------------------------

pub open spec fn ascii_alphanumeric(b: u8) -> bool {
    0x30 <= b <= 0x39 || 0x41 <= b <= 0x5a || 0x61 <= b <= 0x7a
}

/// The capital hexadecimal digit of `d`.
pub open spec fn capital_hex(d: int) -> char {
    if d < 10 {
        digit_char(d)
    } else {
        ((0x41 + d - 10) as u8) as char
    }
}

/// One byte, percent-encoded unless it is an ASCII letter or digit.
pub open spec fn percent_encoded_byte(b: u8) -> Seq<char> {
    if ascii_alphanumeric(b) {
        seq![b as char]
    } else {
        seq!['%', capital_hex(b as int / 16), capital_hex(b as int % 16)]
    }
}

/// The bytes one after the other, each percent-encoded unless it is an ASCII letter or
/// digit.
pub open spec fn percent_encoded(bytes: Seq<u8>) -> Seq<char>
    decreases bytes.len(),
{
    if bytes.len() == 0 {
        seq![]
    } else {
        percent_encoded_byte(bytes[0]) + percent_encoded(bytes.skip(1))
    }
}

/// `percent_encoding::utf8_percent_encode` with `NON_ALPHANUMERIC`.
#[verifier::external_body]
pub(crate) fn percent_encode(text: &str) -> (encoded: String)
    ensures
        encoded@ == percent_encoded(text.spec_bytes()),
{
    percent_encoding::utf8_percent_encode(text, percent_encoding::NON_ALPHANUMERIC).to_string()
}

} // verus!
