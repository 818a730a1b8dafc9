//! What the HTTP interface decides: who may call it, which part of a file is asked for,
//! how a download is answered, and what is refused.

use vstd::prelude::*;
use vstd::string::*;
use vstd::utf8::*;

use crate::keys::hex_val;
use crate::number::{parse_u64, push_u64};
use crate::outside::{percent_encode, utf8_text};
use crate::text::{contains_char, split, split_once, strip_prefix, text_eq, trim};

verus! {

// ---------------------------------------------------------------------------
// Errors
// ---------------------------------------------------------------------------

/// A refused request: the HTTP status and the words of the answer.
#[derive(Debug)]
pub struct ApiError {
    pub status: u16,
    pub message: String,
}

/// What an [`ApiError`] says.
pub struct ErrorView {
    pub status: u16,
    pub message: Seq<char>,
}

impl View for ApiError {
    type V = ErrorView;

    open spec fn view(&self) -> ErrorView {
        ErrorView { status: self.status, message: self.message@ }
    }
}

/// The request cannot be understood or is not allowed.
pub const BAD_REQUEST: u16 = 400;

pub const UNAUTHORIZED: u16 = 401;

pub const NOT_FOUND: u16 = 404;

pub const RANGE_NOT_SATISFIABLE: u16 = 416;

pub const INTERNAL_SERVER_ERROR: u16 = 500;

pub const SERVICE_UNAVAILABLE: u16 = 503;

impl ApiError {
    pub fn unavailable(message: &str) -> (error: ApiError)
        ensures
            error@ == (ErrorView { status: SERVICE_UNAVAILABLE, message: message@ }),
    {
        ApiError { status: SERVICE_UNAVAILABLE, message: message.to_owned() }
    }

    /// What is told to a client without the token.
    pub fn unauthorized() -> (error: ApiError)
        ensures
            error@ == (ErrorView { status: UNAUTHORIZED, message: "unauthorized"@ }),
    {
        ApiError { status: UNAUTHORIZED, message: "unauthorized".to_owned() }
    }

    /// What is told where the databases cannot be read.
    pub fn no_database() -> (error: ApiError)
        ensures
            error@ == (ErrorView { status: SERVICE_UNAVAILABLE, message: "数据库不可用"@ }),
    {
        ApiError::unavailable("数据库不可用")
    }

    pub fn internal(message: &str) -> (error: ApiError)
        ensures
            error@ == (ErrorView { status: INTERNAL_SERVER_ERROR, message: message@ }),
    {
        ApiError { status: INTERNAL_SERVER_ERROR, message: message.to_owned() }
    }

    pub fn bad_request(message: &str) -> (error: ApiError)
        ensures
            error@ == (ErrorView { status: BAD_REQUEST, message: message@ }),
    {
        ApiError { status: BAD_REQUEST, message: message.to_owned() }
    }

    pub fn not_found(message: &str) -> (error: ApiError)
        ensures
            error@ == (ErrorView { status: NOT_FOUND, message: message@ }),
    {
        ApiError { status: NOT_FOUND, message: message.to_owned() }
    }

    pub fn range_not_satisfiable(message: &str) -> (error: ApiError)
        ensures
            error@ == (ErrorView { status: RANGE_NOT_SATISFIABLE, message: message@ }),
    {
        ApiError { status: RANGE_NOT_SATISFIABLE, message: message.to_owned() }
    }
}

// ---------------------------------------------------------------------------
// Percent decoding
// ---------------------------------------------------------------------------

/// The byte at a place, or zero behind the end.
pub open spec fn byte_or_zero(bytes: Seq<u8>, i: int) -> u8 {
    if 0 <= i < bytes.len() {
        bytes[i]
    } else {
        0
    }
}

/// The bytes with each percent sign and the two hexadecimal digits after it made one byte.
/// A percent sign without two digits stays, and the two bytes after it are dropped.
pub open spec fn percent_decoded(bytes: Seq<u8>) -> Seq<u8>
    decreases bytes.len(),
{
    if bytes.len() == 0 {
        seq![]
    } else if bytes[0] == 0x25 {
        let high = crate::keys::hex_digit(byte_or_zero(bytes, 1));
        let low = crate::keys::hex_digit(byte_or_zero(bytes, 2));
        let rest = if bytes.len() > 3 {
            percent_decoded(bytes.skip(3))
        } else {
            seq![]
        };
        if high is Some && low is Some {
            seq![(high->0 * 16 + low->0) as u8] + rest
        } else {
            seq![0x25u8] + rest
        }
    } else {
        seq![bytes[0]] + percent_decoded(bytes.skip(1))
    }
}

/// A percent-encoded text decoded; where that gives no valid text it stays as it is.
pub open spec fn decoded_text(input: Seq<char>) -> Seq<char> {
    let bytes = percent_decoded(encode_utf8(input));
    if valid_utf8(bytes) {
        decode_utf8(bytes)
    } else {
        input
    }
}

fn byte_at(bytes: &[u8], i: usize) -> (b: u8)
    ensures
        b == byte_or_zero(bytes@, i as int),
{
    if i < bytes.len() {
        bytes[i]
    } else {
        0
    }
}

fn decode_bytes(input: &[u8]) -> (bytes: Vec<u8>)
    ensures
        bytes@ == percent_decoded(input@),
{
    let mut bytes: Vec<u8> = Vec::new();
    let mut i: usize = 0;
    proof {
        assert(input@.skip(0) =~= input@);
        assert(bytes@ + percent_decoded(input@) =~= percent_decoded(input@));
    }
    while i < input.len()
        invariant
            i <= input.len(),
            bytes@ + percent_decoded(input@.skip(i as int)) == percent_decoded(input@),
        decreases input@.len() - i,
    {
        let ghost rest = input@.skip(i as int);
        let ghost done = bytes@;
        let left: usize = input.len() - i;
        let b: u8 = input[i];
        proof {
            assert(rest[0] == b);
        }
        if b == 0x25 {
            let high: u8 = if left > 1 {
                byte_at(input, i + 1)
            } else {
                0
            };
            let low: u8 = if left > 2 {
                byte_at(input, i + 2)
            } else {
                0
            };
            proof {
                assert(high == byte_or_zero(rest, 1));
                assert(low == byte_or_zero(rest, 2));
            }
            let value: u8 = match (hex_val(high), hex_val(low)) {
                (Some(h), Some(l)) => h * 16 + l,
                _ => b,
            };
            bytes.push(value);
            let step: usize = if left > 3 {
                3
            } else {
                left
            };
            proof {
                let tail = if rest.len() > 3 {
                    percent_decoded(rest.skip(3))
                } else {
                    seq![]
                };
                assert(percent_decoded(rest) == seq![value] + tail);
                assert(input@.skip(i + step) =~= rest.skip(step as int));
                if rest.len() <= 3 {
                    assert(rest.skip(step as int) =~= Seq::<u8>::empty());
                }
                assert(done + (seq![value] + tail) =~= done.push(value) + tail);
            }
            i = i + step;
        } else {
            bytes.push(b);
            proof {
                assert(input@.skip(i + 1) =~= rest.skip(1));
                assert(done + (seq![b] + percent_decoded(rest.skip(1))) =~= done.push(b)
                    + percent_decoded(rest.skip(1)));
            }
            i = i + 1;
        }
    }
    proof {
        assert(input@.skip(input@.len() as int) =~= Seq::<u8>::empty());
        assert(bytes@ + Seq::<u8>::empty() =~= bytes@);
    }
    bytes
}

/// Decodes a percent-encoded text; where that gives no valid text it stays as it is.
pub fn percent_decode(input: &str) -> (text: String)
    ensures
        text@ == decoded_text(input@),
{
    match utf8_text(decode_bytes(input.as_bytes())) {
        Some(text) => text,
        None => input.to_owned(),
    }
}

proof fn lemma_capital_hex(d: int)
    requires
        0 <= d < 16,
    ensures
        crate::outside::capital_hex(d) <= '\u{7f}',
        crate::keys::hex_digit(crate::outside::capital_hex(d) as u8) == Some(d as u8),
{
}

proof fn lemma_char_least(c: char)
    ensures
        '\0' <= c,
{
}

proof fn lemma_ascii_encode(text: Seq<char>)
    requires
        forall|k: int| 0 <= k < text.len() ==> (#[trigger] text[k]) <= '\u{7f}',
    ensures
        encode_utf8(text) == Seq::new(text.len(), |k: int| text[k] as u8),
{
    assert(is_ascii_chars(text)) by {
        assert forall|k: int| 0 <= k < text.len() implies '\0' <= #[trigger] text[k] <= '\u{7f}' by {
            assert(text[k] <= '\u{7f}');
            lemma_char_least(text[k]);
        }
    }
    is_ascii_chars_encode_utf8(text);
    assert(encode_utf8(text) =~= Seq::new(text.len(), |k: int| text[k] as u8));
}

proof fn lemma_encoded_byte(b: u8)
    ensures
        ({
            let text = crate::outside::percent_encoded_byte(b);
            let bytes = encode_utf8(text);
            if crate::outside::ascii_alphanumeric(b) {
                bytes == seq![b]
            } else {
                &&& bytes.len() == 3
                &&& bytes[0] == 0x25
                &&& crate::keys::hex_digit(bytes[1]) == Some((b / 16) as u8)
                &&& crate::keys::hex_digit(bytes[2]) == Some((b % 16) as u8)
            }
        }),
{
    let text = crate::outside::percent_encoded_byte(b);
    if crate::outside::ascii_alphanumeric(b) {
        lemma_ascii_encode(text);
        assert(encode_utf8(text) =~= seq![b]);
    } else {
        lemma_capital_hex(b as int / 16);
        lemma_capital_hex(b as int % 16);
        lemma_ascii_encode(text);
    }
}

proof fn lemma_encoded_bytes_decode(bytes: Seq<u8>)
    ensures
        percent_decoded(encode_utf8(crate::outside::percent_encoded(bytes))) == bytes,
    decreases bytes.len(),
{
    let text = crate::outside::percent_encoded(bytes);
    if bytes.len() == 0 {
        assert(encode_utf8(text) =~= Seq::<u8>::empty());
        assert(percent_decoded(encode_utf8(text)) =~= bytes);
    } else {
        let b = bytes[0];
        let rest = bytes.skip(1);
        let head = crate::outside::percent_encoded_byte(b);
        let tail = crate::outside::percent_encoded(rest);
        lemma_encoded_bytes_decode(rest);
        lemma_encoded_byte(b);
        crate::text::lemma_encode_concat(head, tail);
        let all = encode_utf8(text);
        let encoded_tail = encode_utf8(tail);
        if crate::outside::ascii_alphanumeric(b) {
            assert(all[0] == b);
            assert(all.skip(1) =~= encoded_tail);
            assert(percent_decoded(all) =~= seq![b] + rest);
        } else {
            let encoded = encode_utf8(head);
            assert(all[0] == encoded[0] && all[1] == encoded[1] && all[2] == encoded[2]);
            assert(all.skip(3) =~= encoded_tail);
            if all.len() == 3 {
                assert(encoded_tail =~= Seq::<u8>::empty());
                assert(rest =~= Seq::<u8>::empty());
            }
            assert((b / 16) * 16 + b % 16 == b);
            assert(percent_decoded(all) =~= seq![b] + rest);
        }
        assert(seq![b] + rest =~= bytes);
    }
}

/// A percent-encoded text decodes to the text it was made from.
pub proof fn percent_decoding_undoes_encoding(text: Seq<char>)
    ensures
        decoded_text(crate::outside::percent_encoded(encode_utf8(text))) == text,
{
    lemma_encoded_bytes_decode(encode_utf8(text));
    encode_utf8_valid_utf8(text);
    encode_utf8_decode_utf8(text);
}

/// Whether a percent sign and two hexadecimal digits, of either case, write a byte.
pub open spec fn writes_byte(sign: char, high: char, low: char, b: u8) -> bool {
    &&& sign == '%'
    &&& high <= '\u{7f}'
    &&& low <= '\u{7f}'
    &&& crate::keys::hex_digit(high as u8) == Some((b / 16) as u8)
    &&& crate::keys::hex_digit(low as u8) == Some((b % 16) as u8)
}

/// Whether a text writes each byte as a percent sign and two hexadecimal digits.
pub open spec fn writes_bytes(text: Seq<char>, bytes: Seq<u8>) -> bool {
    &&& text.len() == 3 * bytes.len()
    &&& forall|k: int|
        0 <= k < bytes.len() ==> writes_byte(
            text[3 * k],
            text[3 * k + 1],
            text[3 * k + 2],
            #[trigger] bytes[k],
        )
}

/// Whether a text is a percent encoding of another: every character is either written byte
/// by byte or, unless it is a percent sign, left as it is.
pub open spec fn encodes(encoded: Seq<char>, text: Seq<char>) -> bool
    decreases text.len(),
{
    if text.len() == 0 {
        encoded.len() == 0
    } else {
        let bytes = encode_scalar(text[0] as u32);
        let n = 3 * bytes.len() as int;
        ||| {
            &&& text[0] != '%'
            &&& encoded.len() > 0
            &&& encoded[0] == text[0]
            &&& encodes(encoded.skip(1), text.skip(1))
        }
        ||| {
            &&& encoded.len() >= n
            &&& writes_bytes(encoded.take(n), bytes)
            &&& encodes(encoded.skip(n), text.skip(1))
        }
    }
}

proof fn lemma_high_bytes(scalar: u32)
    by (bit_vector)
    ensures
        0x80u8 | (scalar & 0x3F) as u8 >= 0x80,
        0x80u8 | ((scalar >> 6) & 0x3F) as u8 >= 0x80,
        0x80u8 | ((scalar >> 12) & 0x3F) as u8 >= 0x80,
        0xC0u8 | ((scalar >> 6) & 0x1F) as u8 >= 0x80,
        0xE0u8 | ((scalar >> 12) & 0x0F) as u8 >= 0x80,
        0xF0u8 | ((scalar >> 18) & 0x7) as u8 >= 0x80,
        scalar <= 0x7F ==> (scalar & 0x7F) as u8 == scalar,
{
}

proof fn lemma_only_percent_has_its_byte(c: char)
    requires
        c != '%',
    ensures
        forall|k: int|
            0 <= k < encode_scalar(c as u32).len() ==> #[trigger] encode_scalar(c as u32)[k] != 0x25,
{
    lemma_high_bytes(c as u32);
}

proof fn lemma_plain_bytes_stay(a: Seq<u8>, rest: Seq<u8>)
    requires
        forall|k: int| 0 <= k < a.len() ==> #[trigger] a[k] != 0x25,
    ensures
        percent_decoded(a + rest) == a + percent_decoded(rest),
    decreases a.len(),
{
    if a.len() == 0 {
        assert(a + rest =~= rest);
        assert(a + percent_decoded(rest) =~= percent_decoded(rest));
    } else {
        let tail = a.skip(1);
        assert forall|k: int| 0 <= k < tail.len() implies #[trigger] tail[k] != 0x25 by {
            assert(a[k + 1] != 0x25);
        }
        lemma_plain_bytes_stay(tail, rest);
        assert((a + rest).skip(1) =~= tail + rest);
        assert(a[0] != 0x25);
        assert(seq![a[0]] + (tail + percent_decoded(rest)) =~= a + percent_decoded(rest));
    }
}

proof fn lemma_written_bytes_decode(text: Seq<char>, bytes: Seq<u8>, rest: Seq<u8>)
    requires
        writes_bytes(text, bytes),
    ensures
        percent_decoded(encode_utf8(text) + rest) == bytes + percent_decoded(rest),
    decreases bytes.len(),
{
    if bytes.len() == 0 {
        assert(encode_utf8(text) + rest =~= rest);
        assert(bytes + percent_decoded(rest) =~= percent_decoded(rest));
    } else {
        let head = text.take(3);
        let tail = text.skip(3);
        let b = bytes[0];
        assert(writes_byte(text[0], text[1], text[2], b));
        assert(text =~= head + tail);
        crate::text::lemma_encode_concat(head, tail);
        lemma_ascii_encode(head);
        let less = bytes.skip(1);
        assert forall|k: int| 0 <= k < less.len() implies writes_byte(
            tail[3 * k],
            tail[3 * k + 1],
            tail[3 * k + 2],
            #[trigger] less[k],
        ) by {
            assert(less[k] == bytes[k + 1]);
            assert(tail[3 * k] == text[3 * (k + 1)]);
            assert(tail[3 * k + 1] == text[3 * (k + 1) + 1]);
            assert(tail[3 * k + 2] == text[3 * (k + 1) + 2]);
        }
        lemma_written_bytes_decode(tail, less, rest);
        let all = encode_utf8(text) + rest;
        let after = encode_utf8(tail) + rest;
        assert(all.skip(3) =~= after);
        assert(all[0] == 0x25);
        assert(all[1] == text[1] as u8 && all[2] == text[2] as u8);
        assert((b / 16) * 16 + b % 16 == b);
        if all.len() == 3 {
            assert(after =~= Seq::<u8>::empty());
            assert(percent_decoded(after) =~= Seq::<u8>::empty());
        }
        assert(percent_decoded(all) =~= seq![b] + percent_decoded(after));
        assert(seq![b] + (less + percent_decoded(rest)) =~= bytes + percent_decoded(rest));
    }
}

proof fn lemma_encoding_decodes(encoded: Seq<char>, text: Seq<char>)
    requires
        encodes(encoded, text),
    ensures
        percent_decoded(encode_utf8(encoded)) == encode_utf8(text),
    decreases text.len(),
{
    if text.len() == 0 {
        assert(encode_utf8(encoded) =~= Seq::<u8>::empty());
        assert(percent_decoded(encode_utf8(encoded)) =~= encode_utf8(text));
    } else {
        let bytes = encode_scalar(text[0] as u32);
        let n = 3 * bytes.len() as int;
        assert(text.drop_first() =~= text.skip(1));
        if text[0] != '%' && encoded.len() > 0 && encoded[0] == text[0] && encodes(
            encoded.skip(1),
            text.skip(1),
        ) {
            let rest = encoded.skip(1);
            lemma_encoding_decodes(rest, text.skip(1));
            assert(encoded.drop_first() =~= rest);
            lemma_only_percent_has_its_byte(text[0]);
            lemma_plain_bytes_stay(bytes, encode_utf8(rest));
        } else {
            let head = encoded.take(n);
            let rest = encoded.skip(n);
            lemma_encoding_decodes(rest, text.skip(1));
            assert(encoded =~= head + rest);
            crate::text::lemma_encode_concat(head, rest);
            lemma_written_bytes_decode(head, bytes, encode_utf8(rest));
        }
    }
}

/// Decoding undoes every percent encoding, whatever characters it leaves as they are and
/// whatever the case of its digits.
pub proof fn percent_decoding_undoes_every_encoding(encoded: Seq<char>, text: Seq<char>)
    requires
        encodes(encoded, text),
    ensures
        decoded_text(encoded) == text,
{
    lemma_encoding_decodes(encoded, text);
    encode_utf8_valid_utf8(text);
    encode_utf8_decode_utf8(text);
}

/// A text without a percent sign stays as it is.
pub proof fn texts_without_percent_signs_stay(text: Seq<char>)
    requires
        !text.contains('%'),
    ensures
        decoded_text(text) == text,
{
    lemma_plain_text_encodes_itself(text);
    percent_decoding_undoes_every_encoding(text, text);
}

proof fn lemma_plain_text_encodes_itself(text: Seq<char>)
    requires
        !text.contains('%'),
    ensures
        encodes(text, text),
    decreases text.len(),
{
    if text.len() > 0 {
        assert(text.contains(text[0]));
        let rest = text.skip(1);
        assert(!rest.contains('%')) by {
            if rest.contains('%') {
                let k = choose|k: int| 0 <= k < rest.len() && rest[k] == '%';
                assert(text[k + 1] == '%');
            }
        }
        lemma_plain_text_encodes_itself(rest);
    }
}

// ---------------------------------------------------------------------------
// Who may call
// ---------------------------------------------------------------------------

/// A byte that may stand in a header that is read as a text.
pub open spec fn visible(b: u8) -> bool {
    32 <= b < 127 || b == 9
}

/// A header as a text, where all its bytes are visible.
pub open spec fn header_text(bytes: Seq<u8>) -> Option<Seq<char>> {
    if forall|k: int| 0 <= k < bytes.len() ==> visible(#[trigger] bytes[k]) {
        Some(bytes.map_values(|b: u8| b as char))
    } else {
        None
    }
}

/// A header as a text, where all its bytes are visible.
pub fn header_to_text(bytes: &[u8]) -> (text: Option<String>)
    ensures
        crate::text::text_of(text) == header_text(bytes@),
{
    let mut text = String::new();
    let mut i: usize = 0;
    proof {
        assert(text@ =~= bytes@.take(0).map_values(|b: u8| b as char));
    }
    while i < bytes.len()
        invariant
            i <= bytes@.len(),
            forall|k: int| 0 <= k < i ==> visible(#[trigger] bytes@[k]),
            text@ =~= bytes@.take(i as int).map_values(|b: u8| b as char),
        decreases bytes@.len() - i,
    {
        let b: u8 = bytes[i];
        if !((32 <= b && b < 127) || b == 9) {
            return None;
        }
        text.push(b as char);
        i = i + 1;
    }
    proof {
        assert(bytes@.take(bytes@.len() as int) =~= bytes@);
    }
    Some(text)
}

/// Whether an authorization header names the token.
pub open spec fn header_authorizes(header: Option<Seq<u8>>, token: Seq<char>) -> bool {
    match header {
        Some(bytes) => match header_text(bytes) {
            Some(text) => match crate::text::after_prefix(text, "Bearer "@) {
                Some(bearer) => crate::text::trimmed(bearer) == token,
                None => false,
            },
            None => false,
        },
        None => false,
    }
}

/// Whether a part of a query names the token.
pub open spec fn pair_authorizes(pair: Seq<char>, token: Seq<char>) -> bool {
    match crate::text::after_prefix(pair, "token="@) {
        Some(value) => decoded_text(value) == token,
        None => false,
    }
}

/// Whether a query names the token.
pub open spec fn query_authorizes(query: Option<Seq<char>>, token: Seq<char>) -> bool {
    match query {
        Some(text) => some_pair_authorizes(crate::text::split_on(text, '&'), token),
        None => false,
    }
}

/// Whether one of the parts of a query names the token.
pub open spec fn some_pair_authorizes(pairs: Seq<Seq<char>>, token: Seq<char>) -> bool {
    exists|k: int| 0 <= k < pairs.len() && pair_authorizes(#[trigger] pairs[k], token)
}

/// Whether a request may go on: every request may where no token is set, else one that
/// names it in its header or in its query.
pub open spec fn may_call(
    token: Option<Seq<char>>,
    header: Option<Seq<u8>>,
    query: Option<Seq<char>>,
) -> bool {
    match token {
        Some(t) => header_authorizes(header, t) || query_authorizes(query, t),
        None => true,
    }
}

fn check_header(header: Option<&[u8]>, token: &str) -> (found: bool)
    ensures
        found == header_authorizes(
            match header {
                Some(bytes) => Some(bytes@),
                None => None,
            },
            token@,
        ),
{
    match header {
        Some(bytes) => match header_to_text(bytes) {
            Some(text) => match strip_prefix(text.as_str(), "Bearer ") {
                Some(bearer) => text_eq(trim(bearer), token),
                None => false,
            },
            None => false,
        },
        None => false,
    }
}

fn check_query(query: Option<&str>, token: &str) -> (found: bool)
    ensures
        found == query_authorizes(
            match query {
                Some(text) => Some(text@),
                None => None,
            },
            token@,
        ),
{
    match query {
        Some(text) => {
            let parts = split(text, '&');
            let ghost all = crate::text::texts_of(parts@);
            let mut i: usize = 0;
            while i < parts.len()
                invariant
                    i <= parts@.len(),
                    all == crate::text::texts_of(parts@),
                    all == crate::text::split_on(text@, '&'),
                    query is Some,
                    query->0@ == text@,
                    forall|k: int| 0 <= k < i ==> !pair_authorizes(#[trigger] all[k], token@),
                decreases parts@.len() - i,
            {
                proof {
                    assert(all[i as int] == parts@[i as int]@);
                }
                if let Some(value) = strip_prefix(parts[i].as_str(), "token=") {
                    if text_eq(percent_decode(value).as_str(), token) {
                        proof {
                            assert(pair_authorizes(all[i as int], token@));
                        }
                        return true;
                    }
                }
                i = i + 1;
            }
            false
        },
        None => false,
    }
}

/// Whether a request may go on. `header` is the first authorization header and `query` the
/// query of the address.
pub fn authorized(token: Option<&str>, header: Option<&[u8]>, query: Option<&str>) -> (allowed: bool)
    ensures
        allowed == may_call(
            match token {
                Some(t) => Some(t@),
                None => None,
            },
            match header {
                Some(bytes) => Some(bytes@),
                None => None,
            },
            match query {
                Some(text) => Some(text@),
                None => None,
            },
        ),
{
    match token {
        Some(t) => check_header(header, t) || check_query(query, t),
        None => true,
    }
}

/// Where no token is set every request may go on.
pub proof fn no_token_no_lock(header: Option<Seq<u8>>, query: Option<Seq<char>>)
    ensures
        may_call(None, header, query),
{
}

/// A request without header and query may not go on where a token is set.
pub proof fn token_is_required(token: Seq<char>)
    ensures
        !may_call(Some(token), None, None),
{
}

/// The token can be handed over in the query, percent-encoded, whatever it is made of.
pub proof fn encoded_token_is_accepted(token: Seq<char>, header: Option<Seq<u8>>)
    ensures
        may_call(
            Some(token),
            header,
            Some("token="@ + crate::outside::percent_encoded(encode_utf8(token))),
        ),
{
    let value = crate::outside::percent_encoded(encode_utf8(token));
    let query = "token="@ + value;
    reveal_strlit("token=");
    percent_decoding_undoes_encoding(token);
    lemma_encoded_has_no_ampersand(encode_utf8(token));
    assert(!query.contains('&')) by {
        assert forall|k: int| 0 <= k < query.len() implies query[k] != '&' by {
            if k >= 6 {
                assert(query[k] == value[k - 6]);
                assert(value.contains(value[k - 6]));
            }
        }
    }
    crate::text::lemma_first_at(query, '&');
    assert(crate::text::first_at(query, '&') == query.len()) by {
        if crate::text::first_at(query, '&') < query.len() {
            assert(query.contains(query[crate::text::first_at(query, '&') as int]));
        }
    }
    let parts = crate::text::split_on(query, '&');
    assert(parts =~= seq![query]);
    assert(query.subrange(0, 6) =~= "token="@);
    assert(query.skip(6) =~= value);
    assert(pair_authorizes(parts[0], token));
}

proof fn lemma_encoded_has_no_ampersand(bytes: Seq<u8>)
    ensures
        !crate::outside::percent_encoded(bytes).contains('&'),
    decreases bytes.len(),
{
    let text = crate::outside::percent_encoded(bytes);
    if bytes.len() > 0 {
        lemma_encoded_has_no_ampersand(bytes.skip(1));
        let head = crate::outside::percent_encoded_byte(bytes[0]);
        let tail = crate::outside::percent_encoded(bytes.skip(1));
        assert forall|k: int| 0 <= k < text.len() implies text[k] != '&' by {
            if k >= head.len() {
                assert(text[k] == tail[k - head.len()]);
                assert(tail.contains(tail[k - head.len()]));
            }
        }
    }
}

// ---------------------------------------------------------------------------
// Ranges
// ---------------------------------------------------------------------------

/// The first and the last byte that the text behind `bytes=` asks for, of a file of
/// `total` bytes, or the words of the refusal.
pub open spec fn range_in(range: Seq<char>, total: u64) -> Result<(u64, u64), Seq<char>> {
    if range.contains(',') || total == 0 {
        Err("仅支持单段 Range"@)
    } else {
        match crate::text::split_pair(range, '-') {
            Some((first, last)) => if first.len() == 0 {
                match crate::number::parsed_unsigned(last, u64::MAX as int) {
                    Some(n) => if n == 0 {
                        Err("Range 长度必须大于 0"@)
                    } else {
                        Ok(
                            (
                                if n < total {
                                    (total - n) as u64
                                } else {
                                    0u64
                                },
                                (total - 1) as u64,
                            ),
                        )
                    },
                    None => Err("Range 格式无效"@),
                }
            } else {
                match crate::number::parsed_unsigned(first, u64::MAX as int) {
                    Some(start) => if last.len() > 0 && crate::number::parsed_unsigned(
                        last,
                        u64::MAX as int,
                    ) is None {
                        Err("Range 终点无效"@)
                    } else {
                        let end = if last.len() == 0 {
                            total - 1
                        } else {
                            let n = crate::number::parsed_unsigned(last, u64::MAX as int)->0;
                            if n < total - 1 {
                                n
                            } else {
                                total - 1
                            }
                        };
                        if start >= total || start > end {
                            Err("Range 超出文件范围"@)
                        } else {
                            Ok((start as u64, end as u64))
                        }
                    },
                    None => Err("Range 起点无效"@),
                }
            },
            None => Err("Range 格式无效"@),
        }
    }
}

/// The part of a file that a range header asks for: `None` where there is no header, else
/// the first and the last byte, or the words of the refusal.
pub open spec fn requested_range(header: Option<Seq<u8>>, total: u64) -> Result<
    Option<(u64, u64)>,
    Seq<char>,
> {
    match header {
        Some(bytes) => match header_text(bytes) {
            Some(text) => match crate::text::after_prefix(text, "bytes="@) {
                Some(range) => match range_in(range, total) {
                    Ok(pair) => Ok(Some(pair)),
                    Err(words) => Err(words),
                },
                None => Err("仅支持 bytes Range"@),
            },
            None => Err("Range 格式无效"@),
        },
        None => Ok(None),
    }
}

fn read_range(range: &str, total: u64) -> (result: Result<(u64, u64), &'static str>)
    ensures
        match result {
            Ok(pair) => range_in(range@, total) == Ok::<(u64, u64), Seq<char>>(pair),
            Err(words) => range_in(range@, total) == Err::<(u64, u64), Seq<char>>(words@),
        },
{
    if contains_char(range, ',') || total == 0 {
        return Err("仅支持单段 Range");
    }
    match split_once(range, '-') {
        Some((first, last)) => {
            if first.is_empty() {
                match parse_u64(last) {
                    Some(n) => {
                        if n == 0 {
                            return Err("Range 长度必须大于 0");
                        }
                        let start: u64 = if n < total {
                            total - n
                        } else {
                            0
                        };
                        Ok((start, total - 1))
                    },
                    None => Err("Range 格式无效"),
                }
            } else {
                match parse_u64(first) {
                    Some(start) => {
                        let end: u64 = if last.is_empty() {
                            total - 1
                        } else {
                            match parse_u64(last) {
                                Some(n) => if n < total - 1 {
                                    n
                                } else {
                                    total - 1
                                },
                                None => {
                                    return Err("Range 终点无效");
                                },
                            }
                        };
                        if start >= total || start > end {
                            return Err("Range 超出文件范围");
                        }
                        Ok((start, end))
                    },
                    None => Err("Range 起点无效"),
                }
            }
        },
        None => Err("Range 格式无效"),
    }
}

/// The part of a file of `total` bytes that a range header asks for.
pub fn parse_range_header(value: Option<&[u8]>, total: u64) -> (result: Result<
    Option<(u64, u64)>,
    ApiError,
>)
    ensures
        ({
            let range = requested_range(
                match value {
                    Some(bytes) => Some(bytes@),
                    None => None,
                },
                total,
            );
            match result {
                Ok(pair) => range == Ok::<Option<(u64, u64)>, Seq<char>>(pair),
                Err(error) => range == Err::<Option<(u64, u64)>, Seq<char>>(error.message@)
                    && error.status == RANGE_NOT_SATISFIABLE,
            }
        }),
{
    match value {
        Some(bytes) => match header_to_text(bytes) {
            Some(text) => match strip_prefix(text.as_str(), "bytes=") {
                Some(range) => match read_range(range, total) {
                    Ok(pair) => Ok(Some(pair)),
                    Err(words) => Err(ApiError::range_not_satisfiable(words)),
                },
                None => Err(ApiError::range_not_satisfiable("仅支持 bytes Range")),
            },
            None => Err(ApiError::range_not_satisfiable("Range 格式无效")),
        },
        None => Ok(None),
    }
}

/// A range that is granted lies in the file and holds at least one byte.
pub proof fn granted_ranges_lie_in_the_file(header: Option<Seq<u8>>, total: u64)
    ensures
        requested_range(header, total) matches Ok(Some(pair)) ==> pair.0 <= pair.1 && pair.1 < total,
{
}

// ---------------------------------------------------------------------------
// Downloads
// ---------------------------------------------------------------------------

/// How a download is answered: which bytes are sent, and what the headers say.
#[derive(Debug)]
pub struct DownloadPlan {
    pub status: u16,
    pub start: u64,
    pub length: u64,
    pub disposition: String,
    pub etag: String,
    pub content_range: Option<String>,
}

pub const OK: u16 = 200;

pub const PARTIAL_CONTENT: u16 = 206;

/// The number of bytes that are sent.
pub open spec fn sent_length(range: Option<(u64, u64)>, total: u64) -> u64 {
    match range {
        Some(pair) => (pair.1 - pair.0 + 1) as u64,
        None => total,
    }
}

/// The header that names the part of the file.
pub open spec fn content_range_text(start: u64, end: u64, total: u64) -> Seq<char> {
    "bytes "@ + crate::number::digits(start as nat) + "-"@ + crate::number::digits(end as nat) + "/"@
        + crate::number::digits(total as nat)
}

/// The header under which name the file is saved: the name itself, percent-encoded.
pub open spec fn disposition_text(name: Seq<char>) -> Seq<char> {
    "attachment; filename=\"attachment.bin\"; filename*=UTF-8''"@ + crate::outside::percent_encoded(
        encode_utf8(name),
    )
}

/// The header that tells versions of the file apart: its digest, or its identifier where
/// it has none.
pub open spec fn etag_text(md5: Option<Seq<char>>, id: Seq<char>) -> Seq<char> {
    "\""@ + (match md5 {
        Some(digest) => digest,
        None => id,
    }) + "\""@
}

fn content_range(start: u64, end: u64, total: u64) -> (text: String)
    ensures
        text@ == content_range_text(start, end, total),
{
    let mut text = "bytes ".to_owned();
    push_u64(&mut text, start);
    text.append("-");
    push_u64(&mut text, end);
    text.append("/");
    push_u64(&mut text, total);
    text
}

/// Whether a plan answers the download of a file.
pub open spec fn answers_download(
    name: Seq<char>,
    total: u64,
    md5: Option<Seq<char>>,
    id: Seq<char>,
    range_header: Option<Seq<u8>>,
    plan: Result<DownloadPlan, ApiError>,
) -> bool {
    let range = requested_range(range_header, total);
    match plan {
        Ok(p) => {
            &&& range is Ok
            &&& p.status == (if range->Ok_0 is Some {
                PARTIAL_CONTENT
            } else {
                OK
            })
            &&& p.start == match range->Ok_0 {
                Some(pair) => pair.0,
                None => 0,
            }
            &&& p.length == sent_length(range->Ok_0, total)
            &&& p.start + p.length <= total
            &&& p.disposition@ == disposition_text(name)
            &&& p.etag@ == etag_text(md5, id)
            &&& crate::text::text_of(p.content_range) == match range->Ok_0 {
                Some(pair) => Some(content_range_text(pair.0, pair.1, total)),
                None => None,
            }
        },
        Err(error) => range == Err::<Option<(u64, u64)>, Seq<char>>(error.message@) && error.status
            == RANGE_NOT_SATISFIABLE,
    }
}

/// How the download of a file is answered: in full, or the part that the range header asks
/// for.
pub fn plan_download(
    name: &str,
    total: u64,
    md5: Option<&str>,
    id: &str,
    range_header: Option<&[u8]>,
) -> (plan: Result<DownloadPlan, ApiError>)
    ensures
        answers_download(
            name@,
            total,
            match md5 {
                Some(digest) => Some(digest@),
                None => None,
            },
            id@,
            match range_header {
                Some(bytes) => Some(bytes@),
                None => None,
            },
            plan,
        ),
{
    let range = match parse_range_header(range_header, total) {
        Ok(range) => range,
        Err(error) => {
            return Err(error);
        },
    };
    proof {
        granted_ranges_lie_in_the_file(
            match range_header {
                Some(bytes) => Some(bytes@),
                None => None,
            },
            total,
        );
    }
    let disposition =
        "attachment; filename=\"attachment.bin\"; filename*=UTF-8''".to_owned().concat(
        percent_encode(name).as_str(),
    );
    let tag = match md5 {
        Some(digest) => digest,
        None => id,
    };
    let etag = "\"".to_owned().concat(tag).concat("\"");
    match range {
        Some((start, end)) => Ok(
            DownloadPlan {
                status: PARTIAL_CONTENT,
                start,
                length: end - start + 1,
                disposition,
                etag,
                content_range: Some(content_range(start, end, total)),
            },
        ),
        None => Ok(
            DownloadPlan { status: OK, start: 0, length: total, disposition, etag, content_range: None },
        ),
    }
}

// ---------------------------------------------------------------------------
// The control tree
// ---------------------------------------------------------------------------

/// How deep the control tree is shown: as asked for, five levels where that is no number,
/// and fifteen at most.
pub fn tree_depth(asked: Option<&str>) -> (depth: u32)
    ensures
        depth == ({
            let parsed = match asked {
                Some(text) => crate::number::parsed_unsigned(text@, u32::MAX as int),
                None => None,
            };
            let wanted = match parsed {
                Some(n) => n,
                None => 5,
            };
            if wanted > 15 {
                15
            } else {
                wanted
            }
        }),
{
    let wanted: u32 = match asked {
        Some(text) => match crate::number::parse_u32(text) {
            Some(n) => n,
            None => 5,
        },
        None => 5,
    };
    if wanted > 15 {
        15
    } else {
        wanted
    }
}

// ---------------------------------------------------------------------------
// Laws of requests
// ---------------------------------------------------------------------------

proof fn lemma_number_in_range(n: u64)
    ensures
        ({
            let text = crate::number::digits(n as nat);
            &&& text.len() > 0
            &&& !text.contains('-')
            &&& !text.contains(',')
            &&& crate::number::parsed_unsigned(text, u64::MAX as int) == Some(n as int)
        }),
{
    crate::number::digits_read_back(n as nat);
    let text = crate::number::digits(n as nat);
    assert forall|k: int| 0 <= k < text.len() implies text[k] != '-' && text[k] != ',' by {
        assert(crate::text::ascii_digit(text[k]));
    }
}

proof fn lemma_range_parts(first: Seq<char>, last: Seq<char>)
    requires
        !first.contains('-'),
        !first.contains(','),
        !last.contains(','),
    ensures
        crate::text::split_pair(first + seq!['-'] + last, '-') == Some((first, last)),
        !(first + seq!['-'] + last).contains(','),
{
    let range = first + seq!['-'] + last;
    let at = first.len() as int;
    assert(range[at] == '-');
    assert forall|k: int| 0 <= k < at implies range[k] != '-' by {
        assert(range[k] == first[k]);
        assert(first.contains(first[k]));
    }
    crate::text::lemma_first_at_is(range, '-', at);
    assert(range.take(at) =~= first);
    assert(range.skip(at + 1) =~= last);
    assert forall|k: int| 0 <= k < range.len() implies range[k] != ',' by {
        if k < at {
            assert(first.contains(first[k]));
        } else if k > at {
            assert(range[k] == last[k - at - 1]);
            assert(last.contains(last[k - at - 1]));
        }
    }
}

/// Which bytes a range means, of a file that is not empty: from the first to the last that
/// is named, or to the end of the file where the last lies behind it or none is named; and
/// where only a number is named, that many at the end, or the whole file where it has fewer.
/// A range that begins behind the file, or ends before it begins, is refused; so is a range
/// of no bytes, and every range of an empty file.
pub proof fn ranges_mean_the_bytes_they_name(first: u64, last: u64, total: u64)
    ensures
        ({
            let a = crate::number::digits(first as nat);
            let b = crate::number::digits(last as nat);
            let between = range_in(a + seq!['-'] + b, total);
            let onward = range_in(a + seq!['-'], total);
            let at_the_end = range_in(seq!['-'] + b, total);
            &&& first <= last && last < total ==> between == Ok::<(u64, u64), Seq<char>>(
                (first, last),
            )
            &&& first < total && last >= total ==> between == Ok::<(u64, u64), Seq<char>>(
                (first, (total - 1) as u64),
            )
            &&& first >= total || first > last ==> between is Err
            &&& first < total ==> onward == Ok::<(u64, u64), Seq<char>>(
                (first, (total - 1) as u64),
            )
            &&& first >= total ==> onward is Err
            &&& 0 < last <= total ==> at_the_end == Ok::<(u64, u64), Seq<char>>(
                ((total - last) as u64, (total - 1) as u64),
            )
            &&& last > total && total > 0 ==> at_the_end == Ok::<(u64, u64), Seq<char>>(
                (0u64, (total - 1) as u64),
            )
            &&& last == 0 || total == 0 ==> at_the_end is Err
        }),
{
    lemma_number_in_range(first);
    lemma_number_in_range(last);
    let a = crate::number::digits(first as nat);
    let b = crate::number::digits(last as nat);
    let none = Seq::<char>::empty();
    lemma_range_parts(a, b);
    lemma_range_parts(a, none);
    lemma_range_parts(none, b);
    assert(a + seq!['-'] + none =~= a + seq!['-']);
    assert(none + seq!['-'] + b =~= seq!['-'] + b);
}

/// More than one range is refused.
pub proof fn several_ranges_are_refused(range: Seq<char>, total: u64)
    requires
        range.contains(','),
    ensures
        range_in(range, total) is Err,
{
}

proof fn lemma_header_text(text: Seq<char>)
    requires
        forall|k: int| 0 <= k < text.len() ==> ' ' <= (#[trigger] text[k]) < '\u{7f}',
    ensures
        header_text(encode_utf8(text)) == Some(text),
{
    lemma_ascii_encode(text);
    let bytes = encode_utf8(text);
    assert forall|k: int| 0 <= k < bytes.len() implies visible(#[trigger] bytes[k])
        && bytes[k] as char == text[k] by {
        assert(' ' <= text[k] < '\u{7f}');
    }
    assert(bytes.map_values(|b: u8| b as char) =~= text);
}

/// A header with a range of bytes asks for that range, a request without one for the whole
/// file; any other header is refused.
pub proof fn range_headers_are_read(range: Seq<char>, other: Seq<u8>, total: u64)
    requires
        forall|k: int| 0 <= k < range.len() ==> ' ' <= (#[trigger] range[k]) < '\u{7f}',
    ensures
        requested_range(None, total) == Ok::<Option<(u64, u64)>, Seq<char>>(None),
        match range_in(range, total) {
            Ok(pair) => requested_range(Some(encode_utf8("bytes="@ + range)), total) == Ok::<
                Option<(u64, u64)>,
                Seq<char>,
            >(Some(pair)),
            Err(words) => requested_range(Some(encode_utf8("bytes="@ + range)), total) == Err::<
                Option<(u64, u64)>,
                Seq<char>,
            >(words),
        },
        requested_range(Some(other), total) is Ok ==> requested_range(Some(other), total)->Ok_0
            is Some && header_text(other) is Some && exists|r: Seq<char>|
            header_text(other)->0 == #[trigger] ("bytes="@ + r) && range_in(r, total) is Ok,
{
    reveal_strlit("bytes=");
    let text = "bytes="@ + range;
    assert forall|k: int| 0 <= k < text.len() implies ' ' <= (#[trigger] text[k]) < '\u{7f}' by {
        if k >= 6 {
            assert(text[k] == range[k - 6]);
        }
    }
    lemma_header_text(text);
    assert(text.subrange(0, 6) =~= "bytes="@);
    assert(text.skip(6) =~= range);
    if requested_range(Some(other), total) is Ok {
        let given = header_text(other)->0;
        let r = given.skip(6);
        assert(given =~= "bytes="@ + r);
    }
}

/// What is sent of a file: the bytes that the range header asks for, and nothing else, with
/// a header that names them; and the whole file where there is no such header. The file is
/// saved under its own name, and its version is told apart by its digest, or by its
/// identifier where it has none.
pub proof fn downloads_send_what_is_asked_for(
    name: Seq<char>,
    total: u64,
    md5: Option<Seq<char>>,
    id: Seq<char>,
    range_header: Option<Seq<u8>>,
    plan: Result<DownloadPlan, ApiError>,
)
    requires
        answers_download(name, total, md5, id, range_header, plan),
    ensures
        range_header is None ==> plan is Ok && plan->Ok_0.status == 200 && plan->Ok_0.start == 0
            && plan->Ok_0.length == total && plan->Ok_0.content_range is None,
        plan is Ok && range_header is Some ==> {
            let p = plan->Ok_0;
            let pair = requested_range(range_header, total)->Ok_0->0;
            &&& p.status == 206
            &&& p.length > 0
            &&& p.start + p.length <= total
            &&& p.start == pair.0
            &&& p.start + p.length - 1 == pair.1
            &&& p.content_range is Some
            &&& p.content_range->0@ == "bytes "@ + crate::number::digits(p.start as nat) + "-"@
                + crate::number::digits((p.start + p.length - 1) as nat) + "/"@
                + crate::number::digits(total as nat)
        },
        plan is Ok ==> {
            let p = plan->Ok_0;
            &&& md5 is Some ==> p.etag@ == "\""@ + md5->0 + "\""@
            &&& md5 is None ==> p.etag@ == "\""@ + id + "\""@
            &&& crate::text::has_suffix(
                p.disposition@,
                crate::outside::percent_encoded(encode_utf8(name)),
            )
        },
        plan is Err ==> plan->Err_0.status == 416 && range_header is Some,
{
    granted_ranges_lie_in_the_file(range_header, total);
    if plan is Ok {
        let p = plan->Ok_0;
        let encoded = crate::outside::percent_encoded(encode_utf8(name));
        let at = p.disposition@.len() - encoded.len();
        assert(p.disposition@.subrange(at, at + encoded.len()) =~= encoded);
    }
}

/// The token can be handed over in the header.
pub proof fn bearer_token_is_accepted(token: Seq<char>, query: Option<Seq<char>>)
    requires
        token.len() > 0,
        forall|k: int| 0 <= k < token.len() ==> ' ' < (#[trigger] token[k]) < '\u{7f}',
    ensures
        may_call(Some(token), Some(encode_utf8("Bearer "@ + token)), query),
{
    reveal_strlit("Bearer ");
    let text = "Bearer "@ + token;
    assert forall|k: int| 0 <= k < text.len() implies ' ' <= (#[trigger] text[k]) < '\u{7f}' by {
        if k >= 7 {
            assert(text[k] == token[k - 7]);
        }
    }
    lemma_header_text(text);
    assert(text.subrange(0, 7) =~= "Bearer "@);
    assert(text.skip(7) =~= token);
    assert(' ' < token[0] < '\u{7f}');
    assert(' ' < token[token.len() - 1] < '\u{7f}');
    assert(crate::text::trim_front(token) == token);
    assert(crate::text::trim_back(token) == token);
}

/// Only who names the token may call: it stands in the header behind `Bearer`, with nothing
/// but white space around it, or it is what a part of the query with the name `token`
/// stands for.
pub proof fn only_the_token_unlocks(
    token: Seq<char>,
    header: Option<Seq<u8>>,
    query: Option<Seq<char>>,
)
    requires
        may_call(Some(token), header, query),
    ensures
        ({
            let by_header = header is Some && header_text(header->0) is Some && exists|b: Seq<char>|
                header_text(header->0)->0 == #[trigger] ("Bearer "@ + b) && crate::text::trimmed(b)
                    == token;
            let by_query = query is Some && exists|k: int, v: Seq<char>|
                0 <= k < crate::text::split_on(query->0, '&').len() && crate::text::split_on(
                    query->0,
                    '&',
                )[k] == #[trigger] named_token(v, k) && decoded_text(v) == token;
            by_header || by_query
        }),
{
    if header_authorizes(header, token) {
        reveal_strlit("Bearer ");
        let text = header_text(header->0)->0;
        let b = text.skip(7);
        assert(text =~= "Bearer "@ + b);
    } else {
        reveal_strlit("token=");
        let pairs = crate::text::split_on(query->0, '&');
        let k = choose|k: int| 0 <= k < pairs.len() && pair_authorizes(#[trigger] pairs[k], token);
        let v = pairs[k].skip(6);
        assert(pairs[k] =~= named_token(v, k));
    }
}

/// A part of a query, whichever it is, that names a token.
pub open spec fn named_token(value: Seq<char>, part: int) -> Seq<char> {
    "token="@ + value
}

/// A header unlocks one token and no other.
pub proof fn a_header_unlocks_one_token(token: Seq<char>, other: Seq<char>, header: Seq<u8>)
    requires
        may_call(Some(token), Some(header), None),
        may_call(Some(other), Some(header), None),
    ensures
        token == other,
{
}

/// The header fields of a download name what they are about: the file name is written
/// percent-encoded behind the fixed part, the tag is the digest where it is known and the
/// identifier otherwise, each in quotes, and the range is given by its first byte, its last
/// and the size.
pub proof fn header_fields_name_their_file(
    name: Seq<char>,
    other: Seq<char>,
    digest: Seq<char>,
    id: Seq<char>,
    start: u64,
    end: u64,
    total: u64,
)
    ensures
        ({
            let written = crate::outside::percent_encoded(encode_utf8(name));
            let fixed = disposition_text(name).len() - written.len();
            &&& crate::text::has_suffix(disposition_text(name), written)
            &&& disposition_text(name).take(fixed) == disposition_text(other).take(fixed)
        }),
        etag_text(Some(digest), id) == seq!['"'] + digest + seq!['"'],
        etag_text(None, id) == seq!['"'] + id + seq!['"'],
        crate::text::has_suffix(
            content_range_text(start, end, total),
            seq!['/'] + crate::number::digits(total as nat),
        ),
        crate::text::has_prefix(
            content_range_text(start, end, total),
            "bytes "@ + crate::number::digits(start as nat) + seq!['-'] + crate::number::digits(
                end as nat,
            ),
        ),
{
    reveal_strlit("\"");
    reveal_strlit("-");
    reveal_strlit("/");
    assert("\""@ =~= seq!['"']);
    assert("-"@ =~= seq!['-']);
    assert("/"@ =~= seq!['/']);
    let written = crate::outside::percent_encoded(encode_utf8(name));
    let text = disposition_text(name);
    let fixed = text.len() - written.len();
    assert(text.subrange(fixed, text.len() as int) =~= written);
    assert(text.take(fixed) =~= disposition_text(other).take(fixed));
    let range = content_range_text(start, end, total);
    let last = seq!['/'] + crate::number::digits(total as nat);
    let first = "bytes "@ + crate::number::digits(start as nat) + seq!['-']
        + crate::number::digits(end as nat);
    assert(range =~= first + last);
    assert(range.subrange(range.len() - last.len(), range.len() as int) =~= last);
    assert(range.subrange(0, first.len() as int) =~= first);
    assert(range.take(first.len() as int) =~= first);
}

} // verus!
