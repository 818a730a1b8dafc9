//! Text as a sequence of characters: comparison, search, trimming, splitting.

use vstd::prelude::*;
use vstd::string::*;
use vstd::utf8::*;

verus! {

/// The characters of an optional text.
pub open spec fn text_of(text: Option<String>) -> Option<Seq<char>> {
    match text {
        Some(t) => Some(t@),
        None => None,
    }
}

/// The characters of each text of a list.
pub open spec fn texts_of(list: Seq<String>) -> Seq<Seq<char>> {
    list.map_values(|t: String| t@)
}

/// `String::push` appends one character.
pub assume_specification[ String::push ](text: &mut String, c: char)
    ensures
        final(text)@ == old(text)@.push(c),
;

/// The characters of `text`, one per element.
pub fn to_chars(text: &str) -> (chars: Vec<char>)
    ensures
        chars@ == text@,
{
    let mut chars: Vec<char> = Vec::new();
    for c in it: text.chars()
        invariant
            chars@ == it.seq().take(it.index()),
            it.seq() == text@,
    {
        chars.push(c);
        proof {
            assert(it.seq().take(it.index() + 1) =~= it.seq().take(it.index()).push(c));
        }
    }
    proof {
        assert(text@.take(text@.len() as int) =~= text@);
    }
    chars
}

/// The text made of `chars[from..to]`.
pub fn chars_to_text(chars: &Vec<char>, from: usize, to: usize) -> (text: String)
    requires
        from <= to <= chars@.len(),
    ensures
        text@ == chars@.subrange(from as int, to as int),
{
    let mut text = String::new();
    let mut i: usize = from;
    while i < to
        invariant
            from <= i <= to <= chars@.len(),
            text@ == chars@.subrange(from as int, i as int),
        decreases to - i,
    {
        text.push(chars[i]);
        i = i + 1;
        proof {
            assert(chars@.subrange(from as int, i as int) =~= chars@.subrange(
                from as int,
                i - 1,
            ).push(chars@[i - 1]));
        }
    }
    text
}

/// A copy of an optional text.
pub fn clone_text(text: &Option<String>) -> (copy: Option<String>)
    ensures
        text_of(copy) == text_of(*text),
{
    match text {
        Some(t) => Some(t.clone()),
        None => None,
    }
}

/// A copy of a list of texts.
pub fn clone_texts(list: &Vec<String>) -> (copy: Vec<String>)
    ensures
        copy@ == list@,
{
    let mut copy: Vec<String> = Vec::new();
    let mut i: usize = 0;
    while i < list.len()
        invariant
            i <= list@.len(),
            copy@ == list@.take(i as int),
        decreases list@.len() - i,
    {
        copy.push(list[i].clone());
        i = i + 1;
        proof {
            assert(list@.take(i as int) =~= list@.take(i - 1).push(list@[i - 1]));
        }
    }
    proof {
        assert(list@.take(list@.len() as int) =~= list@);
    }
    copy
}

/// Two character sequences with one UTF-8 encoding are the same sequence.
pub proof fn lemma_utf8_injective(a: Seq<char>, b: Seq<char>)
    requires
        encode_utf8(a) == encode_utf8(b),
    ensures
        a == b,
{
    encode_utf8_decode_utf8(a);
    encode_utf8_decode_utf8(b);
}

/// Whether two byte slices are equal.
pub fn bytes_eq(a: &[u8], b: &[u8]) -> (equal: bool)
    ensures
        equal == (a@ == b@),
{
    if a.len() != b.len() {
        return false;
    }
    let mut i: usize = 0;
    while i < a.len()
        invariant
            a@.len() == b@.len(),
            i <= a@.len(),
            forall|k: int| 0 <= k < i ==> a@[k] == b@[k],
        decreases a@.len() - i,
    {
        if a[i] != b[i] {
            return false;
        }
        i = i + 1;
    }
    proof {
        assert(a@ =~= b@);
    }
    true
}

/// Whether two texts are equal.
pub fn text_eq(a: &str, b: &str) -> (equal: bool)
    ensures
        equal == (a@ == b@),
{
    let equal = bytes_eq(a.as_bytes(), b.as_bytes());
    proof {
        if equal {
            lemma_utf8_injective(a@, b@);
        }
    }
    equal
}

/// Whether `text` is one of the texts in `list`.
pub fn list_contains(list: &Vec<String>, text: &str) -> (found: bool)
    ensures
        found == texts_of(list@).contains(text@),
{
    let mut i: usize = 0;
    while i < list.len()
        invariant
            i <= list@.len(),
            forall|k: int| 0 <= k < i ==> (#[trigger] list@[k])@ != text@,
        decreases list@.len() - i,
    {
        if text_eq(list[i].as_str(), text) {
            proof {
                assert(texts_of(list@)[i as int] == text@);
            }
            return true;
        }
        i = i + 1;
    }
    proof {
        assert forall|k: int| 0 <= k < texts_of(list@).len() implies texts_of(list@)[k] != text@ by {
            assert(list@[k]@ != text@);
        }
    }
    false
}

/// The length of `text` in bytes, as its UTF-8 encoding counts them.
pub open spec fn byte_len(text: Seq<char>) -> nat {
    encode_utf8(text).len()
}

pub fn text_len(text: &str) -> (len: usize)
    ensures
        len == byte_len(text@),
{
    text.as_bytes().len()
}

// ---------------------------------------------------------------------------
// Search
// ---------------------------------------------------------------------------

/// `needle` stands in `text` at position `at`.
pub open spec fn occurs_at(text: Seq<char>, needle: Seq<char>, at: int) -> bool {
    &&& 0 <= at
    &&& at + needle.len() <= text.len()
    &&& text.subrange(at, at + needle.len()) == needle
}

/// `needle` stands somewhere in `text`.
pub open spec fn contains_text(text: Seq<char>, needle: Seq<char>) -> bool {
    exists|at: int| occurs_at(text, needle, at)
}

pub open spec fn has_prefix(text: Seq<char>, prefix: Seq<char>) -> bool {
    occurs_at(text, prefix, 0)
}

pub open spec fn has_suffix(text: Seq<char>, suffix: Seq<char>) -> bool {
    occurs_at(text, suffix, text.len() - suffix.len())
}

/// Whether `needle` stands in `text` at position `at`.
pub fn chars_occur_at(text: &Vec<char>, needle: &Vec<char>, at: usize) -> (found: bool)
    ensures
        found == occurs_at(text@, needle@, at as int),
{
    if at > text.len() || needle.len() > text.len() - at {
        return false;
    }
    let mut i: usize = 0;
    while i < needle.len()
        invariant
            i <= needle@.len(),
            at + needle.len() <= text.len(),
            forall|k: int| 0 <= k < i ==> text@[at + k] == #[trigger] needle@[k],
        decreases needle@.len() - i,
    {
        if text[at + i] != needle[i] {
            proof {
                assert(text@.subrange(at as int, at + needle@.len())[i as int] != needle@[i as int]);
            }
            return false;
        }
        i = i + 1;
    }
    proof {
        assert(text@.subrange(at as int, at + needle@.len()) =~= needle@);
    }
    true
}

/// The first position at or after `from` where `needle` stands in `text`.
pub fn chars_find(text: &Vec<char>, needle: &Vec<char>, from: usize) -> (found: Option<usize>)
    ensures
        match found {
            Some(at) => from <= at && occurs_at(text@, needle@, at as int) && forall|k: int|
                from <= k < at ==> !occurs_at(text@, needle@, k),
            None => forall|k: int| from <= k ==> !occurs_at(text@, needle@, k),
        },
{
    let mut at: usize = from;
    while at <= text.len()
        invariant
            from <= at,
            forall|k: int| from <= k < at ==> !occurs_at(text@, needle@, k),
        decreases text@.len() + 1 - at,
    {
        if chars_occur_at(text, needle, at) {
            return Some(at);
        }
        if at == text.len() {
            return None;
        }
        at = at + 1;
    }
    None
}

/// Whether `needle` stands somewhere in `text`.
pub fn text_contains(text: &str, needle: &str) -> (found: bool)
    ensures
        found == contains_text(text@, needle@),
{
    chars_find(&to_chars(text), &to_chars(needle), 0).is_some()
}

/// Whether `text` begins with `prefix`.
pub fn starts_with(text: &str, prefix: &str) -> (found: bool)
    ensures
        found == has_prefix(text@, prefix@),
{
    chars_occur_at(&to_chars(text), &to_chars(prefix), 0)
}

/// Whether `text` ends with `suffix`.
pub fn ends_with(text: &str, suffix: &str) -> (found: bool)
    ensures
        found == has_suffix(text@, suffix@),
{
    let chars = to_chars(text);
    let tail = to_chars(suffix);
    if tail.len() > chars.len() {
        return false;
    }
    chars_occur_at(&chars, &tail, chars.len() - tail.len())
}

/// Whether the character `c` stands in `text`.
pub fn contains_char(text: &str, c: char) -> (found: bool)
    ensures
        found == text@.contains(c),
{
    let chars = to_chars(text);
    let mut i: usize = 0;
    while i < chars.len()
        invariant
            i <= chars@.len(),
            chars@ == text@,
            forall|k: int| 0 <= k < i ==> chars@[k] != c,
        decreases chars@.len() - i,
    {
        if chars[i] == c {
            proof {
                assert(text@[i as int] == c);
            }
            return true;
        }
        i = i + 1;
    }
    false
}

/// What is left of `text` behind `prefix`, if it begins with it.
pub open spec fn after_prefix(text: Seq<char>, prefix: Seq<char>) -> Option<Seq<char>> {
    if has_prefix(text, prefix) {
        Some(text.skip(prefix.len() as int))
    } else {
        None
    }
}

pub fn strip_prefix<'a>(text: &'a str, prefix: &str) -> (rest: Option<&'a str>)
    ensures
        match rest {
            Some(r) => after_prefix(text@, prefix@) == Some(r@),
            None => after_prefix(text@, prefix@) is None,
        },
{
    if starts_with(text, prefix) {
        let rest = text.substring_char(prefix.unicode_len(), text.unicode_len());
        proof {
            assert(rest@ =~= text@.skip(prefix@.len() as int));
        }
        Some(rest)
    } else {
        None
    }
}

/// What is left of `text` before `suffix`, if it ends with it.
pub open spec fn before_suffix(text: Seq<char>, suffix: Seq<char>) -> Option<Seq<char>> {
    if has_suffix(text, suffix) {
        Some(text.take(text.len() - suffix.len()))
    } else {
        None
    }
}

pub fn strip_suffix<'a>(text: &'a str, suffix: &str) -> (rest: Option<&'a str>)
    ensures
        match rest {
            Some(r) => before_suffix(text@, suffix@) == Some(r@),
            None => before_suffix(text@, suffix@) is None,
        },
{
    if ends_with(text, suffix) {
        let rest = text.substring_char(0, text.unicode_len() - suffix.unicode_len());
        proof {
            assert(rest@ =~= text@.take(text@.len() - suffix@.len()));
        }
        Some(rest)
    } else {
        None
    }
}

// ---------------------------------------------------------------------------
// Characters
// ---------------------------------------------------------------------------

/// The characters that Unicode marks as white space.
pub open spec fn white_space(c: char) -> bool {
    ||| '\u{9}' <= c <= '\u{d}'
    ||| c == ' '
    ||| c == '\u{85}'
    ||| c == '\u{a0}'
    ||| c == '\u{1680}'
    ||| '\u{2000}' <= c <= '\u{200a}'
    ||| c == '\u{2028}'
    ||| c == '\u{2029}'
    ||| c == '\u{202f}'
    ||| c == '\u{205f}'
    ||| c == '\u{3000}'
}

pub fn is_whitespace(c: char) -> (found: bool)
    ensures
        found == white_space(c),
{
    ('\u{9}' <= c && c <= '\u{d}') || c == ' ' || c == '\u{85}' || c == '\u{a0}' || c == '\u{1680}'
        || ('\u{2000}' <= c && c <= '\u{200a}') || c == '\u{2028}' || c == '\u{2029}' || c
        == '\u{202f}' || c == '\u{205f}' || c == '\u{3000}'
}

/// The control characters of Unicode.
pub open spec fn control_char(c: char) -> bool {
    c <= '\u{1f}' || '\u{7f}' <= c <= '\u{9f}'
}

pub fn is_control(c: char) -> (found: bool)
    ensures
        found == control_char(c),
{
    c <= '\u{1f}' || ('\u{7f}' <= c && c <= '\u{9f}')
}

pub open spec fn ascii_digit(c: char) -> bool {
    '0' <= c <= '9'
}

/// `c` with the ASCII capitals made small.
pub open spec fn ascii_lower(c: char) -> char {
    if 'A' <= c <= 'Z' {
        ((c as u8 + 32) as u8) as char
    } else {
        c
    }
}

pub fn to_ascii_lower(c: char) -> (lower: char)
    ensures
        lower == ascii_lower(c),
{
    if 'A' <= c && c <= 'Z' {
        ((c as u8) + 32) as char
    } else {
        c
    }
}

/// `text` with every ASCII capital made small.
pub open spec fn ascii_lowered(text: Seq<char>) -> Seq<char> {
    text.map_values(|c: char| ascii_lower(c))
}

pub fn to_ascii_lowercase(text: &str) -> (lower: String)
    ensures
        lower@ == ascii_lowered(text@),
{
    let chars = to_chars(text);
    let mut lower = String::new();
    let mut i: usize = 0;
    while i < chars.len()
        invariant
            i <= chars@.len(),
            lower@ == ascii_lowered(chars@).take(i as int),
        decreases chars@.len() - i,
    {
        lower.push(to_ascii_lower(chars[i]));
        i = i + 1;
        proof {
            assert(ascii_lowered(chars@).take(i as int) =~= ascii_lowered(chars@).take(i - 1).push(
                ascii_lower(chars@[i - 1]),
            ));
        }
    }
    proof {
        assert(ascii_lowered(chars@).take(chars@.len() as int) =~= ascii_lowered(chars@));
    }
    lower
}

/// Whether two texts differ at most in the case of their ASCII letters.
pub fn eq_ignore_ascii_case(a: &str, b: &str) -> (equal: bool)
    ensures
        equal == (ascii_lowered(a@) == ascii_lowered(b@)),
{
    text_eq(to_ascii_lowercase(a).as_str(), to_ascii_lowercase(b).as_str())
}

/// Whether `text` holds no character but ASCII digits.
pub fn all_digits(text: &str) -> (all: bool)
    ensures
        all == (forall|k: int| 0 <= k < text@.len() ==> ascii_digit(#[trigger] text@[k])),
{
    let chars = to_chars(text);
    let mut i: usize = 0;
    while i < chars.len()
        invariant
            i <= chars@.len(),
            chars@ == text@,
            forall|k: int| 0 <= k < i ==> ascii_digit(#[trigger] text@[k]),
        decreases chars@.len() - i,
    {
        if !('0' <= chars[i] && chars[i] <= '9') {
            proof {
                assert(!ascii_digit(text@[i as int]));
            }
            return false;
        }
        i = i + 1;
    }
    true
}

/// Whether `text` holds a control character.
pub fn has_control(text: &str) -> (found: bool)
    ensures
        found == (exists|k: int| 0 <= k < text@.len() && control_char(#[trigger] text@[k])),
{
    let chars = to_chars(text);
    let mut i: usize = 0;
    while i < chars.len()
        invariant
            i <= chars@.len(),
            chars@ == text@,
            forall|k: int| 0 <= k < i ==> !control_char(#[trigger] text@[k]),
        decreases chars@.len() - i,
    {
        if is_control(chars[i]) {
            proof {
                assert(control_char(text@[i as int]));
            }
            return true;
        }
        i = i + 1;
    }
    false
}

// ---------------------------------------------------------------------------
// Trimming
// ---------------------------------------------------------------------------

/// `text` without the white space it begins with.
pub open spec fn trim_front(text: Seq<char>) -> Seq<char>
    decreases text.len(),
{
    if text.len() > 0 && white_space(text[0]) {
        trim_front(text.skip(1))
    } else {
        text
    }
}

/// `text` without the white space it ends with.
pub open spec fn trim_back(text: Seq<char>) -> Seq<char>
    decreases text.len(),
{
    if text.len() > 0 && white_space(text.last()) {
        trim_back(text.drop_last())
    } else {
        text
    }
}

/// `text` without the white space at both ends.
pub open spec fn trimmed(text: Seq<char>) -> Seq<char> {
    trim_back(trim_front(text))
}

/// `text` without the white space at both ends.
pub fn trim<'a>(text: &'a str) -> (inner: &'a str)
    ensures
        inner@ == trimmed(text@),
{
    let chars = to_chars(text);
    let mut start: usize = 0;
    proof {
        assert(chars@.skip(0) =~= chars@);
    }
    while start < chars.len() && is_whitespace(chars[start])
        invariant
            start <= chars@.len(),
            trim_front(chars@) == trim_front(chars@.skip(start as int)),
        decreases chars@.len() - start,
    {
        proof {
            assert(chars@.skip(start as int)[0] == chars@[start as int]);
            assert(chars@.skip(start as int).skip(1) =~= chars@.skip(start + 1));
        }
        start = start + 1;
    }
    proof {
        if start < chars@.len() {
            assert(chars@.skip(start as int)[0] == chars@[start as int]);
        }
        assert(trim_front(chars@) == chars@.skip(start as int));
        assert(chars@.skip(start as int) =~= chars@.subrange(start as int, chars@.len() as int));
    }
    let mut end: usize = chars.len();
    while end > start && is_whitespace(chars[end - 1])
        invariant
            start <= end <= chars@.len(),
            trim_back(chars@.skip(start as int)) == trim_back(
                chars@.subrange(start as int, end as int),
            ),
        decreases end,
    {
        proof {
            let s = chars@.subrange(start as int, end as int);
            assert(s.last() == chars@[end - 1]);
            assert(s.drop_last() =~= chars@.subrange(start as int, end - 1));
        }
        end = end - 1;
    }
    proof {
        let s = chars@.subrange(start as int, end as int);
        if end > start {
            assert(s.last() == chars@[end - 1]);
        }
    }
    text.substring_char(start, end)
}

/// Trimming takes nothing but characters at the two ends.
pub proof fn lemma_trim_front_part(text: Seq<char>)
    ensures
        trim_front(text).len() <= text.len(),
        trim_front(text) == text.skip(text.len() - trim_front(text).len()),
        trim_front(text).len() > 0 ==> !white_space(trim_front(text)[0]),
    decreases text.len(),
{
    if text.len() > 0 && white_space(text[0]) {
        lemma_trim_front_part(text.skip(1));
        let rest = trim_front(text.skip(1));
        assert(text.skip(1).skip(text.skip(1).len() - rest.len()) =~= text.skip(
            text.len() - rest.len(),
        ));
    } else {
        assert(text.skip(0) =~= text);
    }
}

pub proof fn lemma_trim_back_part(text: Seq<char>)
    ensures
        trim_back(text).len() <= text.len(),
        trim_back(text) == text.take(trim_back(text).len() as int),
        trim_back(text).len() > 0 ==> !white_space(trim_back(text).last()),
    decreases text.len(),
{
    if text.len() > 0 && white_space(text.last()) {
        lemma_trim_back_part(text.drop_last());
        let rest = trim_back(text.drop_last());
        assert(text.drop_last().take(rest.len() as int) =~= text.take(rest.len() as int));
    } else {
        assert(text.take(text.len() as int) =~= text);
    }
}

/// A trimmed text neither begins nor ends with white space, so trimming it again
/// changes nothing.
pub proof fn lemma_trim_idempotent(text: Seq<char>)
    ensures
        trimmed(trimmed(text)) == trimmed(text),
        trimmed(text).len() <= text.len(),
{
    let front = trim_front(text);
    lemma_trim_front_part(text);
    lemma_trim_back_part(front);
    let inner = trim_back(front);
    if inner.len() > 0 {
        assert(inner[0] == front[0]);
        assert(trim_front(inner) == inner);
        assert(trim_back(inner) == inner);
    }
}

// ---------------------------------------------------------------------------
// Splitting
// ---------------------------------------------------------------------------

/// The first position of `c` in `text`, or its length where `c` does not stand in it.
pub open spec fn first_at(text: Seq<char>, c: char) -> nat
    decreases text.len(),
{
    if text.len() == 0 || text[0] == c {
        0
    } else {
        1 + first_at(text.skip(1), c)
    }
}

pub proof fn lemma_first_at(text: Seq<char>, c: char)
    ensures
        first_at(text, c) <= text.len(),
        forall|k: int| 0 <= k < first_at(text, c) ==> text[k] != c,
        first_at(text, c) < text.len() ==> text[first_at(text, c) as int] == c,
        first_at(text, c) < text.len() <==> text.contains(c),
    decreases text.len(),
{
    if text.len() == 0 {
    } else if text[0] == c {
        assert(text.contains(c));
    } else {
        let rest = text.skip(1);
        lemma_first_at(rest, c);
        assert forall|k: int| 0 <= k < first_at(text, c) implies text[k] != c by {
            if k > 0 {
                assert(rest[k - 1] == text[k]);
            }
        }
        if first_at(rest, c) < rest.len() {
            assert(text[first_at(text, c) as int] == c);
        } else {
            assert forall|k: int| 0 <= k < text.len() implies text[k] != c by {
                if k > 0 {
                    assert(rest[k - 1] == text[k]);
                }
            }
        }
    }
}

/// The position `at` is `first_at`, shown by what stands before it and there.
pub proof fn lemma_first_at_is(text: Seq<char>, c: char, at: int)
    requires
        0 <= at <= text.len(),
        forall|k: int| 0 <= k < at ==> text[k] != c,
        at < text.len() ==> text[at] == c,
    ensures
        first_at(text, c) == at,
{
    lemma_first_at(text, c);
}

/// The first position at or after `from` where `c` stands, or the length.
pub fn find_char(chars: &Vec<char>, c: char, from: usize) -> (at: usize)
    requires
        from <= chars@.len(),
    ensures
        from <= at <= chars@.len(),
        at - from == first_at(chars@.skip(from as int), c),
        forall|k: int| from <= k < at ==> chars@[k] != c,
        at < chars@.len() ==> chars@[at as int] == c,
{
    let mut at: usize = from;
    while at < chars.len() && chars[at] != c
        invariant
            from <= at <= chars@.len(),
            forall|k: int| from <= k < at ==> chars@[k] != c,
        decreases chars@.len() - at,
    {
        at = at + 1;
    }
    proof {
        lemma_first_at_is(chars@.skip(from as int), c, at - from);
    }
    at
}

/// The pieces of `text` between the separators.
pub open spec fn split_on(text: Seq<char>, sep: char) -> Seq<Seq<char>>
    decreases text.len(),
{
    let at = first_at(text, sep);
    if at >= text.len() {
        seq![text]
    } else {
        seq![text.take(at as int)] + split_on(text.skip(at as int + 1), sep)
    }
}

/// The pieces of `text` between the separators.
pub fn split(text: &str, sep: char) -> (parts: Vec<String>)
    ensures
        texts_of(parts@) == split_on(text@, sep),
{
    let chars = to_chars(text);
    let mut parts: Vec<String> = Vec::new();
    let mut from: usize = 0;
    proof {
        assert(chars@.skip(0) =~= chars@);
        assert(texts_of(parts@) + split_on(chars@, sep) =~= split_on(chars@, sep));
    }
    loop
        invariant
            from <= chars@.len(),
            chars@ == text@,
            texts_of(parts@) + split_on(chars@.skip(from as int), sep) == split_on(text@, sep),
        decreases chars@.len() - from,
    {
        let at = find_char(&chars, sep, from);
        let ghost rest = chars@.skip(from as int);
        let ghost done = texts_of(parts@);
        let piece = chars_to_text(&chars, from, at);
        parts.push(piece);
        proof {
            assert(texts_of(parts@) =~= done.push(piece@));
            assert(piece@ =~= rest.take(at - from));
        }
        if at == chars.len() {
            proof {
                assert(piece@ =~= rest);
                assert(done + seq![rest] =~= done.push(rest));
            }
            return parts;
        }
        proof {
            assert(rest.skip(at - from + 1) =~= chars@.skip(at + 1));
            assert(done + (seq![piece@] + split_on(chars@.skip(at + 1), sep)) =~= done.push(piece@)
                + split_on(chars@.skip(at + 1), sep));
        }
        from = at + 1;
    }
}

/// `text` before and behind the first separator.
pub open spec fn split_pair(text: Seq<char>, sep: char) -> Option<(Seq<char>, Seq<char>)> {
    let at = first_at(text, sep);
    if at < text.len() {
        Some((text.take(at as int), text.skip(at as int + 1)))
    } else {
        None
    }
}

pub fn split_once<'a>(text: &'a str, sep: char) -> (pair: Option<(&'a str, &'a str)>)
    ensures
        match pair {
            Some(p) => split_pair(text@, sep) == Some((p.0@, p.1@)),
            None => split_pair(text@, sep) is None,
        },
{
    let chars = to_chars(text);
    proof {
        assert(chars@.skip(0) =~= chars@);
    }
    let at = find_char(&chars, sep, 0);
    if at == chars.len() {
        None
    } else {
        let head = text.substring_char(0, at);
        let tail = text.substring_char(at + 1, chars.len());
        proof {
            assert(head@ =~= text@.take(at as int));
            assert(tail@ =~= text@.skip(at + 1));
        }
        Some((head, tail))
    }
}

/// The part of `text` behind the last separator, or all of it where there is none.
pub open spec fn last_part(text: Seq<char>, sep: char) -> Seq<char>
    decreases text.len(),
{
    let at = first_at(text, sep);
    if at < text.len() {
        last_part(text.skip(at as int + 1), sep)
    } else {
        text
    }
}

pub fn rsplit_last<'a>(text: &'a str, sep: char) -> (part: &'a str)
    ensures
        part@ == last_part(text@, sep),
{
    let chars = to_chars(text);
    let mut from: usize = 0;
    proof {
        assert(chars@.skip(0) =~= chars@);
    }
    loop
        invariant
            from <= chars@.len(),
            chars@ == text@,
            last_part(chars@.skip(from as int), sep) == last_part(text@, sep),
        decreases chars@.len() - from,
    {
        let at = find_char(&chars, sep, from);
        if at == chars.len() {
            let part = text.substring_char(from, chars.len());
            proof {
                assert(part@ =~= chars@.skip(from as int));
            }
            return part;
        }
        proof {
            assert(chars@.skip(from as int).skip(at - from + 1) =~= chars@.skip(at + 1));
        }
        from = at + 1;
    }
}

// ---------------------------------------------------------------------------
// Order
// ---------------------------------------------------------------------------

/// `a` stands before `b` in the order of their characters. It is the order of the
/// UTF-8 bytes too.
pub open spec fn text_before(a: Seq<char>, b: Seq<char>) -> bool
    decreases a.len(),
{
    if b.len() == 0 {
        false
    } else if a.len() == 0 {
        true
    } else if a[0] == b[0] {
        text_before(a.skip(1), b.skip(1))
    } else {
        a[0] < b[0]
    }
}

pub fn text_less(a: &str, b: &str) -> (less: bool)
    ensures
        less == text_before(a@, b@),
{
    let x = to_chars(a);
    let y = to_chars(b);
    let mut i: usize = 0;
    proof {
        assert(x@.skip(0) =~= x@);
        assert(y@.skip(0) =~= y@);
    }
    loop
        invariant
            i <= x@.len(),
            i <= y@.len(),
            text_before(x@.skip(i as int), y@.skip(i as int)) == text_before(a@, b@),
        decreases x@.len() - i,
    {
        if i >= y.len() {
            return false;
        }
        if i >= x.len() {
            return true;
        }
        proof {
            assert(x@.skip(i as int)[0] == x@[i as int]);
            assert(y@.skip(i as int)[0] == y@[i as int]);
            assert(x@.skip(i as int).skip(1) =~= x@.skip(i + 1));
            assert(y@.skip(i as int).skip(1) =~= y@.skip(i + 1));
        }
        if x[i] != y[i] {
            return x[i] < y[i];
        }
        i = i + 1;
    }
}

/// Of two different texts exactly one stands before the other.
pub proof fn lemma_text_order_total(a: Seq<char>, b: Seq<char>)
    ensures
        !text_before(a, a),
        text_before(a, b) ==> !text_before(b, a),
        a == b || text_before(a, b) || text_before(b, a),
    decreases a.len(),
{
    if a.len() > 0 {
        if b.len() > 0 {
            lemma_text_order_total(a.skip(1), b.skip(1));
            if a[0] == b[0] && a.skip(1) == b.skip(1) {
                assert forall|k: int| 0 <= k < a.len() implies a[k] == b[k] by {
                    if k > 0 {
                        assert(a.skip(1)[k - 1] == b.skip(1)[k - 1]);
                    }
                }
                assert(a.skip(1).len() == b.skip(1).len());
                assert(a =~= b);
            }
        } else {
            lemma_text_order_total(a.skip(1), b);
        }
    } else if b.len() == 0 {
        assert(a =~= b);
    }
}

/// The order of texts is transitive.
pub proof fn lemma_text_order_transitive(a: Seq<char>, b: Seq<char>, c: Seq<char>)
    requires
        text_before(a, b),
        text_before(b, c),
    ensures
        text_before(a, c),
    decreases a.len(),
{
    if a.len() > 0 && b.len() > 0 && c.len() > 0 && a[0] == b[0] && b[0] == c[0] {
        lemma_text_order_transitive(a.skip(1), b.skip(1), c.skip(1));
    }
}

// ---------------------------------------------------------------------------
// Byte lengths
// ---------------------------------------------------------------------------

/// The number of bytes that a character takes in UTF-8.
pub open spec fn char_width(c: char) -> nat {
    if c <= '\u{7f}' {
        1
    } else if c <= '\u{7ff}' {
        2
    } else if c <= '\u{ffff}' {
        3
    } else {
        4
    }
}

pub proof fn lemma_encode_concat(a: Seq<char>, b: Seq<char>)
    ensures
        encode_utf8(a + b) == encode_utf8(a) + encode_utf8(b),
    decreases a.len(),
{
    if a.len() == 0 {
        assert(a + b =~= b);
        assert(encode_utf8(a) + encode_utf8(b) =~= encode_utf8(b));
    } else {
        lemma_encode_concat(a.drop_first(), b);
        assert((a + b).drop_first() =~= a.drop_first() + b);
        assert(encode_scalar(a[0] as u32) + (encode_utf8(a.drop_first()) + encode_utf8(b))
            =~= encode_utf8(a) + encode_utf8(b));
    }
}

pub proof fn lemma_byte_len_push(a: Seq<char>, c: char)
    ensures
        byte_len(a.push(c)) == byte_len(a) + char_width(c),
{
    lemma_encode_concat(a, seq![c]);
    assert(a.push(c) =~= a + seq![c]);
    assert(seq![c].drop_first() =~= Seq::<char>::empty());
    assert(encode_utf8(seq![c]) =~= encode_scalar(c as u32) + encode_utf8(Seq::<char>::empty()));
    assert(encode_utf8(Seq::<char>::empty()) =~= Seq::<u8>::empty());
}

pub proof fn lemma_ascii_byte_len(text: Seq<char>)
    requires
        forall|k: int| 0 <= k < text.len() ==> (#[trigger] text[k]) <= '\u{7f}',
    ensures
        byte_len(text) == text.len(),
    decreases text.len(),
{
    if text.len() > 0 {
        let rest = text.drop_last();
        lemma_ascii_byte_len(rest);
        lemma_byte_len_push(rest, text.last());
        assert(rest.push(text.last()) =~= text);
    }
}

/// The longest beginning of `text` that takes at most `limit` bytes.
pub open spec fn byte_prefix(text: Seq<char>, limit: nat) -> Seq<char>
    decreases text.len(),
{
    if byte_len(text) <= limit || text.len() == 0 {
        text
    } else {
        byte_prefix(text.drop_last(), limit)
    }
}

proof fn lemma_byte_prefix_is(text: Seq<char>, limit: nat, i: int)
    requires
        0 <= i <= text.len(),
        byte_len(text.take(i)) <= limit,
        i < text.len() ==> byte_len(text.take(i + 1)) > limit,
    ensures
        byte_prefix(text, limit) == text.take(i),
    decreases text.len(),
{
    if i == text.len() {
        assert(text.take(i) =~= text);
    } else {
        assert(text =~= text.take(i + 1) + text.skip(i + 1));
        lemma_encode_concat(text.take(i + 1), text.skip(i + 1));
        let shorter = text.drop_last();
        assert(shorter.take(i) =~= text.take(i));
        if i < shorter.len() {
            assert(shorter.take(i + 1) =~= text.take(i + 1));
        }
        lemma_byte_prefix_is(shorter, limit, i);
    }
}

pub proof fn lemma_byte_prefix_fits(text: Seq<char>, limit: nat)
    ensures
        byte_len(byte_prefix(text, limit)) <= limit,
    decreases text.len(),
{
    if byte_len(text) <= limit {
    } else if text.len() == 0 {
    } else {
        lemma_byte_prefix_fits(text.drop_last(), limit);
    }
}

/// The longest beginning of `text` that takes at most `limit` bytes.
pub fn cut_to_bytes(text: &str, limit: usize) -> (cut: String)
    ensures
        cut@ == byte_prefix(text@, limit as nat),
{
    let chars = to_chars(text);
    let mut used: usize = 0;
    let mut i: usize = 0;
    proof {
        assert(text@.take(0) =~= Seq::<char>::empty());
    }
    while i < chars.len()
        invariant
            chars@ == text@,
            i <= chars@.len(),
            used == byte_len(text@.take(i as int)),
            used <= limit,
        decreases chars@.len() - i,
    {
        let c = chars[i];
        let width: usize = if c <= '\u{7f}' {
            1
        } else if c <= '\u{7ff}' {
            2
        } else if c <= '\u{ffff}' {
            3
        } else {
            4
        };
        proof {
            lemma_byte_len_push(text@.take(i as int), c);
            assert(text@.take(i + 1) =~= text@.take(i as int).push(c));
        }
        if limit - used < width {
            proof {
                lemma_byte_prefix_is(text@, limit as nat, i as int);
                assert(text@.take(i as int) =~= text@.subrange(0, i as int));
            }
            return chars_to_text(&chars, 0, i);
        }
        used = used + width;
        i = i + 1;
    }
    proof {
        lemma_byte_prefix_is(text@, limit as nat, i as int);
        assert(text@.take(i as int) =~= text@.subrange(0, i as int));
    }
    chars_to_text(&chars, 0, i)
}

// ---------------------------------------------------------------------------
// Laws of texts
// ---------------------------------------------------------------------------

/// Whether `inner` stands in `text` at position `from`, with nothing but white space around
/// it.
pub open spec fn stands_alone(text: Seq<char>, inner: Seq<char>, from: int) -> bool {
    &&& occurs_at(text, inner, from)
    &&& forall|k: int| 0 <= k < from ==> white_space(#[trigger] text[k])
    &&& forall|k: int| from + inner.len() <= k < text.len() ==> white_space(#[trigger] text[k])
}

/// A text without the white space around it is a part of the text, begins and ends with
/// something else than white space, and nothing but white space stood around it.
pub proof fn trimmed_texts_are_parts(text: Seq<char>)
    ensures
        ({
            let inner = trimmed(text);
            &&& exists|from: int| #[trigger] stands_alone(text, inner, from)
            &&& inner.len() > 0 ==> !white_space(inner[0]) && !white_space(inner.last())
        }),
{
    lemma_trim_front_part(text);
    let front = trim_front(text);
    lemma_trim_back_part(front);
    let inner = trim_back(front);
    let from = text.len() - front.len();
    lemma_front_is_white(text);
    lemma_back_is_white(front);
    assert(inner =~= text.subrange(from, from + inner.len()));
    assert forall|k: int| from + inner.len() <= k < text.len() implies white_space(
        #[trigger] text[k],
    ) by {
        assert(front[k - from] == text[k]);
        assert(white_space(front[k - from]));
    }
    assert(occurs_at(text, inner, from));
    assert(stands_alone(text, inner, from));
    assert(inner == trimmed(text));
    if inner.len() > 0 {
        assert(inner[0] == front[0]);
        assert(!white_space(inner.last()));
    }
}

proof fn lemma_front_is_white(text: Seq<char>)
    ensures
        forall|k: int|
            0 <= k < text.len() - trim_front(text).len() ==> white_space(#[trigger] text[k]),
    decreases text.len(),
{
    lemma_trim_front_part(text);
    if text.len() > 0 && white_space(text[0]) {
        let rest = text.skip(1);
        lemma_front_is_white(rest);
        lemma_trim_front_part(rest);
        assert forall|k: int| 0 <= k < text.len() - trim_front(text).len() implies white_space(
            #[trigger] text[k],
        ) by {
            if k > 0 {
                assert(rest[k - 1] == text[k]);
            }
        }
    }
}

proof fn lemma_back_is_white(text: Seq<char>)
    ensures
        forall|k: int| trim_back(text).len() <= k < text.len() ==> white_space(#[trigger] text[k]),
    decreases text.len(),
{
    if text.len() > 0 && white_space(text.last()) {
        let rest = text.drop_last();
        lemma_back_is_white(rest);
        assert forall|k: int| trim_back(text).len() <= k < text.len() implies white_space(
            #[trigger] text[k],
        ) by {
            if k < rest.len() {
                assert(rest[k] == text[k]);
            }
        }
    }
}

/// Nothing is left of a text that is nothing but white space, and of no other.
pub proof fn blank_texts_are_trimmed_away(text: Seq<char>)
    ensures
        trimmed(text).len() > 0 <==> exists|k: int|
            0 <= k < text.len() && !white_space(#[trigger] text[k]),
{
    trimmed_texts_are_parts(text);
    let inner = trimmed(text);
    let from = choose|from: int| #[trigger] stands_alone(text, inner, from);
    if inner.len() > 0 {
        assert(text[from] == inner[0]);
    }
}

/// The part behind the last separator is what follows on it.
pub proof fn last_parts_are_last(stem: Seq<char>, last: Seq<char>, sep: char)
    requires
        !last.contains(sep),
    ensures
        last_part(stem + seq![sep] + last, sep) == last,
    decreases stem.len(),
{
    let text = stem + seq![sep] + last;
    lemma_first_at(text, sep);
    assert(text[stem.len() as int] == sep);
    assert(text.contains(sep));
    let at = first_at(text, sep) as int;
    let rest = text.skip(at + 1);
    if at < stem.len() {
        assert(rest =~= stem.skip(at + 1) + seq![sep] + last);
        last_parts_are_last(stem.skip(at + 1), last, sep);
    } else {
        assert(at == stem.len());
        assert(rest =~= last);
        lemma_first_at(last, sep);
        assert(last_part(last, sep) == last);
    }
}

/// A text that is put together of parts without separators falls into these parts again.
pub proof fn parts_are_split_apart(first: Seq<char>, rest: Seq<char>, sep: char)
    requires
        !first.contains(sep),
    ensures
        split_on(first, sep) == seq![first],
        split_on(first + seq![sep] + rest, sep) == seq![first] + split_on(rest, sep),
        split_pair(first + seq![sep] + rest, sep) == Some((first, rest)),
        split_pair(first, sep) is None,
{
    lemma_first_at(first, sep);
    let text = first + seq![sep] + rest;
    let at = first.len() as int;
    assert(text[at] == sep);
    assert forall|k: int| 0 <= k < at implies text[k] != sep by {
        assert(text[k] == first[k]);
        assert(first.contains(first[k]));
    }
    lemma_first_at_is(text, sep, at);
    assert(text.take(at) =~= first);
    assert(text.skip(at + 1) =~= rest);
}

/// Which of two texts goes before the other: one that the other begins with, and otherwise
/// the one with the smaller character where they first differ.
pub proof fn texts_are_ordered_by_their_first_difference(
    common: Seq<char>,
    a: Seq<char>,
    b: Seq<char>,
)
    requires
        a.len() == 0 || b.len() == 0 || a[0] != b[0],
    ensures
        text_before(common + a, common + b) <==> b.len() > 0 && (a.len() == 0 || a[0] < b[0]),
    decreases common.len(),
{
    if common.len() == 0 {
        assert(common + a =~= a);
        assert(common + b =~= b);
    } else {
        let rest = common.skip(1);
        assert((common + a).skip(1) =~= rest + a);
        assert((common + b).skip(1) =~= rest + b);
        texts_are_ordered_by_their_first_difference(rest, a, b);
    }
}

/// The white space that is taken away is that of Unicode: the space, the line break and the
/// tab among it, letters, digits and the signs of ASCII not.
pub proof fn white_space_is_that_of_unicode(c: char)
    ensures
        c == ' ' || c == '\n' || c == '\r' || c == '\t' || c == '\u{3000}' || c == '\u{a0}'
            ==> white_space(c),
        '!' <= c <= '~' ==> !white_space(c),
        '\u{4e00}' <= c ==> !white_space(c),
{
}

/// Only the capital letters of ASCII are made small, each the letter with the same place in
/// the alphabet.
pub proof fn capitals_are_made_small(c: char, text: Seq<char>)
    ensures
        'A' <= c <= 'Z' ==> 'a' <= ascii_lower(c) <= 'z' && ascii_lower(c) as int - 'a' as int
            == c as int - 'A' as int,
        !('A' <= c <= 'Z') ==> ascii_lower(c) == c,
        ascii_lowered(text).len() == text.len(),
        forall|k: int| 0 <= k < text.len() ==> #[trigger] ascii_lowered(text)[k] == ascii_lower(
            text[k],
        ),
{
}

} // verus!
