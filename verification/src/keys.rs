//! Database keys: how they are written, which ones are tried on a database, and whose
//! account the databases belong to.

use vstd::prelude::*;
use vstd::string::*;
use vstd::utf8::*;

use crate::outside::parse_keys;
use crate::text::{
    chars_to_text, ends_with, list_contains, rsplit_last, split, starts_with, text_eq, to_chars,
};

verus! {

/// What is wrong with a key.
#[derive(Debug)]
pub enum KeyError {
    /// The number of digits is odd.
    OddLength,
    /// Two characters that are no hexadecimal number.
    InvalidPair(String),
}

/// The words of an error; `pair` is what stands in it of the key.
pub open spec fn odd_length_text() -> Seq<char> {
    "hex 长度必须为偶数"@
}

pub open spec fn invalid_pair_text(pair: Seq<char>) -> Seq<char> {
    "无效 hex 字符: "@ + pair
}

impl KeyError {
    /// The words of the error.
    pub fn message(&self) -> (text: String)
        ensures
            text@ == match self {
                KeyError::OddLength => odd_length_text(),
                KeyError::InvalidPair(pair) => invalid_pair_text(pair@),
            },
    {
        match self {
            KeyError::OddLength => "hex 长度必须为偶数".to_owned(),
            KeyError::InvalidPair(pair) => "无效 hex 字符: ".to_owned().concat(pair.as_str()),
        }
    }
}

// ---------------------------------------------------------------------------
// Hexadecimal numbers
// ---------------------------------------------------------------------------

/// The value of a hexadecimal digit, in either case.
pub open spec fn hex_digit(b: u8) -> Option<u8> {
    if 0x30 <= b <= 0x39 {
        Some((b - 0x30) as u8)
    } else if 0x61 <= b <= 0x66 {
        Some((b - 0x61 + 10) as u8)
    } else if 0x41 <= b <= 0x46 {
        Some((b - 0x41 + 10) as u8)
    } else {
        None
    }
}

/// The value of a hexadecimal digit, in either case.
pub fn hex_val(b: u8) -> (value: Option<u8>)
    ensures
        value == hex_digit(b),
{
    if 0x30 <= b && b <= 0x39 {
        Some(b - 0x30)
    } else if 0x61 <= b && b <= 0x66 {
        Some(b - 0x61 + 10)
    } else if 0x41 <= b && b <= 0x46 {
        Some(b - 0x41 + 10)
    } else {
        None
    }
}

/// The byte that two characters stand for: two hexadecimal digits, or a plus sign and one.
pub open spec fn pair_value(first: u8, second: u8) -> Option<u8> {
    match hex_digit(second) {
        Some(low) => if first == 0x2b {
            Some(low)
        } else {
            match hex_digit(first) {
                Some(high) => Some((high * 16 + low) as u8),
                None => None,
            }
        },
        None => None,
    }
}

/// Where the first pair from `from` on begins that is no byte, or the end.
pub open spec fn first_bad_pair(bytes: Seq<u8>, from: int) -> int
    decreases bytes.len() - from,
{
    if from < 0 || from + 2 > bytes.len() || pair_value(bytes[from], bytes[from + 1]) is None {
        from
    } else {
        first_bad_pair(bytes, from + 2)
    }
}

/// The bytes that the pairs from `from` on stand for.
pub open spec fn pair_values(bytes: Seq<u8>, from: int) -> Seq<u8>
    decreases bytes.len() - from,
{
    if from < 0 || from + 2 > bytes.len() {
        seq![]
    } else {
        seq![pair_value(bytes[from], bytes[from + 1])->0] + pair_values(bytes, from + 2)
    }
}

/// Whether a text can be cut into pairs as far as it is read: the first pair that is no
/// byte ends where a character ends.
pub open spec fn cuts_into_pairs(bytes: Seq<u8>) -> bool {
    let bad = first_bad_pair(bytes, 0);
    bytes.len() % 2 == 0 && bad < bytes.len() ==> is_char_boundary(bytes, bad + 2)
}

/// The bytes of a text written in hexadecimal, if it is one.
pub open spec fn hex_bytes(bytes: Seq<u8>) -> Option<Seq<u8>> {
    if bytes.len() % 2 == 0 && first_bad_pair(bytes, 0) == bytes.len() {
        Some(pair_values(bytes, 0))
    } else {
        None
    }
}

fn read_pair(first: u8, second: u8) -> (value: Option<u8>)
    ensures
        value == pair_value(first, second),
{
    match hex_val(second) {
        Some(low) => if first == 0x2b {
            Some(low)
        } else {
            match hex_val(first) {
                Some(high) => Some(high * 16 + low),
                None => None,
            }
        },
        None => None,
    }
}

fn find_bad_pair(bytes: &[u8]) -> (bad: usize)
    ensures
        bad == first_bad_pair(bytes@, 0),
        bad <= bytes@.len(),
        bytes@.len() % 2 == 0 && bad < bytes@.len() ==> bad + 2 <= bytes@.len(),
        forall|k: int| 0 <= k < bad ==> (#[trigger] bytes@[k]) <= 0x7f,
{
    let mut i: usize = 0;
    while bytes.len() - i >= 2
        invariant
            i <= bytes.len(),
            i % 2 == 0,
            first_bad_pair(bytes@, i as int) == first_bad_pair(bytes@, 0),
            forall|k: int| 0 <= k < i ==> (#[trigger] bytes@[k]) <= 0x7f,
        decreases bytes@.len() - i,
    {
        if read_pair(bytes[i], bytes[i + 1]).is_none() {
            return i;
        }
        i = i + 2;
    }
    i
}

/// Whether a text can be cut into pairs as far as it is read.
pub fn is_cut_into_pairs(hex: &str) -> (cut: bool)
    ensures
        cut == cuts_into_pairs(hex.spec_bytes()),
{
    let bytes = hex.as_bytes();
    let bad: usize = find_bad_pair(bytes);
    if bytes.len() % 2 != 0 || bad >= bytes.len() {
        return true;
    }
    hex.is_char_boundary(bad + 2)
}

/// Whether an error is what is wrong with a text that is not written in hexadecimal: its
/// length, or else the first pair that is no byte.
pub open spec fn is_fault_of(error: KeyError, bytes: Seq<u8>) -> bool {
    match error {
        KeyError::OddLength => bytes.len() % 2 != 0,
        KeyError::InvalidPair(pair) => {
            let bad = first_bad_pair(bytes, 0);
            &&& bytes.len() % 2 == 0
            &&& bad < bytes.len()
            &&& encode_utf8(pair@) == bytes.subrange(bad, bad + 2)
        },
    }
}

/// The bytes of a text written in hexadecimal.
pub fn hex_to_bytes(hex: &str) -> (result: Result<Vec<u8>, KeyError>)
    requires
        cuts_into_pairs(hex.spec_bytes()),
    ensures
        ({
            let bytes = hex.spec_bytes();
            match result {
                Ok(values) => hex_bytes(bytes) == Some(values@),
                Err(error) => is_fault_of(error, bytes),
            }
        }),
{
    let bytes = hex.as_bytes();
    if bytes.len() % 2 != 0 {
        return Err(KeyError::OddLength);
    }
    let bad: usize = find_bad_pair(bytes);
    if bad < bytes.len() {
        let (head, _tail) = hex.split_at(bad + 2);
        proof {
            let front = head.spec_bytes();
            encode_utf8_valid_utf8(head@);
            if bad > 0 {
                assert(front[bad - 1] == bytes@[bad - 1]);
                lemma_after_ascii(front, bad as int);
                is_char_boundary_iff_not_is_continuation_byte(front, bad as int);
            }
        }
        let (_front, pair) = head.split_at(bad);
        proof {
            assert(pair.spec_bytes() =~= hex.spec_bytes().subrange(bad as int, bad + 2));
        }
        return Err(KeyError::InvalidPair(pair.to_owned()));
    }
    let mut values: Vec<u8> = Vec::new();
    let mut i: usize = 0;
    proof {
        assert(values@ + pair_values(bytes@, 0) =~= pair_values(bytes@, 0));
    }
    while i < bytes.len()
        invariant
            i <= bytes@.len(),
            i % 2 == 0,
            bytes@.len() % 2 == 0,
            first_bad_pair(bytes@, i as int) == bytes@.len(),
            values@ + pair_values(bytes@, i as int) == pair_values(bytes@, 0),
        decreases bytes@.len() - i,
    {
        let ghost done = values@;
        if let Some(value) = read_pair(bytes[i], bytes[i + 1]) {
            values.push(value);
            proof {
                assert(done + (seq![value] + pair_values(bytes@, i + 2)) =~= done.push(value)
                    + pair_values(bytes@, i + 2));
            }
        }
        i = i + 2;
    }
    proof {
        assert(values@ + pair_values(bytes@, bytes@.len() as int) =~= values@);
    }
    Ok(values)
}

proof fn lemma_after_ascii(bytes: Seq<u8>, i: int)
    requires
        valid_utf8(bytes),
        0 < i < bytes.len(),
        bytes[i - 1] <= 0x7f,
    ensures
        !is_continuation_byte(bytes[i]),
    decreases bytes.len(),
{
    let n = length_of_first_scalar(bytes);
    let rest = pop_first_scalar(bytes);
    if i == n {
        assert(rest[0] == bytes[i]);
        assert(valid_utf8(rest));
    } else if i > n {
        assert(rest[i - n] == bytes[i]);
        assert(rest[i - n - 1] == bytes[i - 1]);
        lemma_after_ascii(rest, i - n);
    }
}

// ---------------------------------------------------------------------------
// The account
// ---------------------------------------------------------------------------

pub open spec fn alphanumeric(c: char) -> bool {
    '0' <= c <= '9' || 'a' <= c <= 'z' || 'A' <= c <= 'Z'
}

/// Whether the end of a directory's name is what the client appends to an account for
/// the device: two to six letters or digits.
pub open spec fn device_suffix(suffix: Seq<char>) -> bool {
    &&& 2 <= suffix.len() <= 6
    &&& forall|k: int| 0 <= k < suffix.len() ==> alphanumeric(#[trigger] suffix[k])
    &&& !crate::text::has_prefix(suffix, "wxid"@)
}

/// The account that a directory belongs to, without the mark of the device.
pub open spec fn account_of_dir(name: Seq<char>) -> Seq<char> {
    let suffix = crate::text::last_part(name, '_');
    if suffix.len() < name.len() && device_suffix(suffix) {
        name.take(name.len() - suffix.len() - 1)
    } else {
        name
    }
}

/// The account that a path leads to: that of the first directory named after one. A
/// component that is no text counts for nothing.
pub open spec fn account_of_path(components: Seq<Option<String>>) -> Seq<char>
    decreases components.len(),
{
    if components.len() == 0 {
        seq![]
    } else if components[0] is Some && crate::text::has_prefix(components[0]->0@, "wxid_"@) {
        account_of_dir(components[0]->0@)
    } else {
        account_of_path(components.skip(1))
    }
}

fn is_alphanumeric(chars: &Vec<char>) -> (all: bool)
    ensures
        all == (forall|k: int| 0 <= k < chars@.len() ==> alphanumeric(#[trigger] chars@[k])),
{
    let mut i: usize = 0;
    while i < chars.len()
        invariant
            i <= chars@.len(),
            forall|k: int| 0 <= k < i ==> alphanumeric(#[trigger] chars@[k]),
        decreases chars@.len() - i,
    {
        let c = chars[i];
        if !(('0' <= c && c <= '9') || ('a' <= c && c <= 'z') || ('A' <= c && c <= 'Z')) {
            return false;
        }
        i = i + 1;
    }
    true
}

/// The account that a directory belongs to, without the mark of the device.
pub fn strip_device_suffix(name: &str) -> (account: String)
    ensures
        account@ == account_of_dir(name@),
{
    let chars = to_chars(name);
    let suffix = rsplit_last(name, '_');
    let tail = to_chars(suffix);
    if tail.len() < chars.len() && 2 <= tail.len() && tail.len() <= 6 && is_alphanumeric(&tail)
        && !starts_with(suffix, "wxid") {
        let account = chars_to_text(&chars, 0, chars.len() - tail.len() - 1);
        proof {
            assert(account@ =~= name@.take(name@.len() - suffix@.len() - 1));
        }
        return account;
    }
    name.to_owned()
}

/// The account that a path leads to, or an empty text.
pub fn self_wxid(components: &Vec<Option<String>>) -> (account: String)
    ensures
        account@ == account_of_path(components@),
{
    let mut i: usize = 0;
    proof {
        assert(components@.skip(0) =~= components@);
    }
    while i < components.len()
        invariant
            i <= components@.len(),
            account_of_path(components@.skip(i as int)) == account_of_path(components@),
        decreases components@.len() - i,
    {
        proof {
            assert(components@.skip(i as int)[0] == components@[i as int]);
            assert(components@.skip(i as int).skip(1) =~= components@.skip(i + 1));
        }
        if let Some(name) = &components[i] {
            if starts_with(name.as_str(), "wxid_") {
                return strip_device_suffix(name.as_str());
            }
        }
        i = i + 1;
    }
    let none = String::new();
    proof {
        assert(none@ =~= Seq::<char>::empty());
    }
    none
}

// ---------------------------------------------------------------------------
// Which keys are tried
// ---------------------------------------------------------------------------

/// The last of the parts that names something.
pub open spec fn last_named(parts: Seq<Seq<char>>) -> Option<Seq<char>>
    decreases parts.len(),
{
    if parts.len() == 0 {
        None
    } else if parts.last().len() == 0 || parts.last() == "."@ {
        last_named(parts.drop_last())
    } else {
        Some(parts.last())
    }
}

/// The file name in a path; empty where the path ends in no name.
pub open spec fn file_name_of(path: Seq<char>) -> Seq<char> {
    match last_named(crate::text::split_on(path, '/')) {
        Some(name) => if name == ".."@ {
            seq![]
        } else {
            name
        },
        None => seq![],
    }
}

/// The file name in a path; empty where the path ends in no name.
pub fn file_name(path: &str) -> (name: String)
    ensures
        name@ == file_name_of(path@),
{
    let parts = split(path, '/');
    let ghost all = crate::text::texts_of(parts@);
    let mut n: usize = parts.len();
    proof {
        assert(all.take(all.len() as int) =~= all);
    }
    while n > 0
        invariant
            n <= parts@.len(),
            all == crate::text::texts_of(parts@),
            all == crate::text::split_on(path@, '/'),
            last_named(all) == last_named(all.take(n as int)),
        decreases n,
    {
        proof {
            assert(all.take(n as int).last() == parts@[n - 1]@);
            assert(all.take(n as int).drop_last() =~= all.take(n - 1));
        }
        let part = parts[n - 1].as_str();
        if !part.is_empty() && !text_eq(part, ".") {
            if text_eq(part, "..") {
                let none = String::new();
                proof {
                    assert(none@ =~= Seq::<char>::empty());
                }
                return none;
            }
            return part.to_owned();
        }
        n = n - 1;
    }
    let none = String::new();
    proof {
        assert(none@ =~= Seq::<char>::empty());
    }
    none
}

/// A database and its key, as the key file lists them.
#[derive(Debug)]
pub struct KeyEntry {
    pub db_name: String,
    pub key: String,
}

/// The first of the key files that can be read.
pub open spec fn first_keys(contents: Seq<Option<String>>) -> Option<Map<Seq<char>, Seq<char>>>
    decreases contents.len(),
{
    if contents.len() == 0 {
        None
    } else if contents[0] is Some && crate::outside::keys_in(contents[0]->0@) is Some {
        crate::outside::keys_in(contents[0]->0@)
    } else {
        first_keys(contents.skip(1))
    }
}

/// The keys in the first of the key files that can be read. A file that is missing has no
/// content.
pub fn read_keys(contents: &Vec<Option<String>>) -> (keys: Option<Vec<(String, String)>>)
    ensures
        match keys {
            Some(list) => first_keys(contents@) == Some(crate::outside::listed_texts(list@)),
            None => first_keys(contents@) is None,
        },
{
    let mut i: usize = 0;
    proof {
        assert(contents@.skip(0) =~= contents@);
    }
    while i < contents.len()
        invariant
            i <= contents@.len(),
            first_keys(contents@.skip(i as int)) == first_keys(contents@),
        decreases contents@.len() - i,
    {
        proof {
            assert(contents@.skip(i as int)[0] == contents@[i as int]);
            assert(contents@.skip(i as int).skip(1) =~= contents@.skip(i + 1));
        }
        if let Some(text) = &contents[i] {
            if let Some(keys) = parse_keys(text.as_str()) {
                return Some(keys);
            }
        }
        i = i + 1;
    }
    None
}

/// The pairs whose key can be cut into pairs of digits.
pub open spec fn entries_of(pairs: Seq<(String, String)>) -> Seq<(Seq<char>, Seq<char>)>
    decreases pairs.len(),
{
    if pairs.len() == 0 {
        seq![]
    } else {
        let before = entries_of(pairs.drop_last());
        if cuts_into_pairs(encode_utf8(pairs.last().1@)) {
            before.push((pairs.last().0@, pairs.last().1@))
        } else {
            before
        }
    }
}

pub open spec fn entries_view(entries: Seq<KeyEntry>) -> Seq<(Seq<char>, Seq<char>)> {
    entries.map_values(|e: KeyEntry| (e.db_name@, e.key@))
}

/// The entries of a key file, without those whose key cannot be cut into pairs of digits.
pub fn key_entries(pairs: Vec<(String, String)>) -> (entries: Vec<KeyEntry>)
    ensures
        entries_view(entries@) == entries_of(pairs@),
{
    let mut entries: Vec<KeyEntry> = Vec::new();
    let mut i: usize = 0;
    proof {
        assert(entries_view(entries@) =~= entries_of(pairs@.take(0)));
    }
    while i < pairs.len()
        invariant
            i <= pairs@.len(),
            entries_view(entries@) =~= entries_of(pairs@.take(i as int)),
        decreases pairs@.len() - i,
    {
        let ghost before = entries_view(entries@);
        proof {
            assert(pairs@.take(i + 1).drop_last() =~= pairs@.take(i as int));
            assert(pairs@.take(i + 1).last() == pairs@[i as int]);
        }
        let pair = &pairs[i];
        if is_cut_into_pairs(pair.1.as_str()) {
            entries.push(KeyEntry { db_name: pair.0.clone(), key: pair.1.clone() });
            proof {
                assert(entries_view(entries@) =~= before.push((pair.0@, pair.1@)));
            }
        }
        i = i + 1;
    }
    proof {
        assert(pairs@.take(pairs@.len() as int) =~= pairs@);
    }
    entries
}

/// The key listed for exactly that name.
pub open spec fn exact_key(entries: Seq<KeyEntry>, db_name: Seq<char>) -> Option<Seq<char>>
    decreases entries.len(),
{
    if entries.len() == 0 {
        None
    } else if entries[0].db_name@ == db_name {
        Some(entries[0].key@)
    } else {
        exact_key(entries.skip(1), db_name)
    }
}

/// The first key listed for a name with that ending.
pub open spec fn key_by_ending(entries: Seq<KeyEntry>, ending: Seq<char>) -> Option<Seq<char>>
    decreases entries.len(),
{
    if entries.len() == 0 {
        None
    } else if crate::text::has_suffix(entries[0].db_name@, ending) {
        Some(entries[0].key@)
    } else {
        key_by_ending(entries.skip(1), ending)
    }
}

/// The key of a database: the one listed for it, else the first listed for a path that
/// ends in its file name.
pub open spec fn listed_key(entries: Seq<KeyEntry>, db_name: Seq<char>) -> Option<Seq<char>> {
    match exact_key(entries, db_name) {
        Some(key) => Some(key),
        None => key_by_ending(entries, file_name_of(db_name)),
    }
}

/// The key of a database, among the listed ones.
pub fn lookup_db_key(entries: &Vec<KeyEntry>, db_name: &str) -> (key: Option<String>)
    ensures
        crate::text::text_of(key) == listed_key(entries@, db_name@),
{
    let mut i: usize = 0;
    proof {
        assert(entries@.skip(0) =~= entries@);
    }
    while i < entries.len()
        invariant
            i <= entries@.len(),
            exact_key(entries@.skip(i as int), db_name@) == exact_key(entries@, db_name@),
        decreases entries@.len() - i,
    {
        proof {
            assert(entries@.skip(i as int)[0] == entries@[i as int]);
            assert(entries@.skip(i as int).skip(1) =~= entries@.skip(i + 1));
        }
        if text_eq(entries[i].db_name.as_str(), db_name) {
            return Some(entries[i].key.clone());
        }
        i = i + 1;
    }
    let ending = file_name(db_name);
    let mut k: usize = 0;
    while k < entries.len()
        invariant
            k <= entries@.len(),
            ending@ == file_name_of(db_name@),
            exact_key(entries@, db_name@) is None,
            key_by_ending(entries@.skip(k as int), ending@) == key_by_ending(entries@, ending@),
        decreases entries@.len() - k,
    {
        proof {
            assert(entries@.skip(k as int)[0] == entries@[k as int]);
            assert(entries@.skip(k as int).skip(1) =~= entries@.skip(k + 1));
        }
        if ends_with(entries[k].db_name.as_str(), ending.as_str()) {
            return Some(entries[k].key.clone());
        }
        k = k + 1;
    }
    None
}

/// The listed keys, each once.
pub open spec fn unique_keys(entries: Seq<KeyEntry>) -> Seq<Seq<char>>
    decreases entries.len(),
{
    if entries.len() == 0 {
        seq![]
    } else {
        let before = unique_keys(entries.drop_last());
        if before.contains(entries.last().key@) {
            before
        } else {
            before.push(entries.last().key@)
        }
    }
}

/// The listed keys, each once.
pub fn all_json_keys(entries: &Vec<KeyEntry>) -> (keys: Vec<String>)
    ensures
        crate::text::texts_of(keys@) == unique_keys(entries@),
{
    let mut keys: Vec<String> = Vec::new();
    let mut i: usize = 0;
    while i < entries.len()
        invariant
            i <= entries@.len(),
            crate::text::texts_of(keys@) =~= unique_keys(entries@.take(i as int)),
        decreases entries@.len() - i,
    {
        let ghost before = crate::text::texts_of(keys@);
        proof {
            assert(entries@.take(i + 1).drop_last() =~= entries@.take(i as int));
            assert(entries@.take(i + 1).last() == entries@[i as int]);
        }
        if !list_contains(&keys, entries[i].key.as_str()) {
            keys.push(entries[i].key.clone());
            proof {
                assert(crate::text::texts_of(keys@) =~= before.push(entries@[i as int].key@));
            }
        }
        i = i + 1;
    }
    proof {
        assert(entries@.take(entries@.len() as int) =~= entries@);
    }
    keys
}

/// A key that is tried on a database, in hexadecimal and as bytes.
#[derive(Debug)]
pub struct KeyAttempt {
    pub key_hex: String,
    pub key_bytes: Vec<u8>,
}

pub open spec fn attempts_view(attempts: Seq<KeyAttempt>) -> Seq<(Seq<char>, Seq<u8>)> {
    attempts.map_values(|a: KeyAttempt| (a.key_hex@, a.key_bytes@))
}

/// The listed keys that are tried last: those that are written properly, except the one
/// that was tried already.
pub open spec fn remaining_attempts(keys: Seq<Seq<char>>, key_hex: Seq<char>) -> Seq<
    (Seq<char>, Seq<u8>),
>
    decreases keys.len(),
{
    if keys.len() == 0 {
        seq![]
    } else {
        let before = remaining_attempts(keys.drop_last(), key_hex);
        let key = keys.last();
        match hex_bytes(encode_utf8(key)) {
            Some(bytes) => if key == key_hex {
                before
            } else {
                before.push((key, bytes))
            },
            None => before,
        }
    }
}

/// The keys that are tried on a database, in order: the one listed for it, the account's,
/// and then every other listed key. A listed key that is not written properly is tried
/// with no bytes.
pub open spec fn attempts_for(
    entries: Seq<KeyEntry>,
    db_name: Seq<char>,
    key_hex: Seq<char>,
    key_bytes: Seq<u8>,
) -> Seq<(Seq<char>, Seq<u8>)> {
    let own = match listed_key(entries, db_name) {
        Some(key) => seq![
            (
                key,
                match hex_bytes(encode_utf8(key)) {
                    Some(bytes) => bytes,
                    None => seq![],
                },
            ),
        ],
        None => seq![],
    };
    own.push((key_hex, key_bytes)) + remaining_attempts(unique_keys(entries), key_hex)
}

/// All listed keys can be cut into pairs as far as they are read.
pub open spec fn entries_cut_into_pairs(entries: Seq<KeyEntry>) -> bool {
    forall|i: int|
        0 <= i < entries.len() ==> cuts_into_pairs(encode_utf8((#[trigger] entries[i]).key@))
}

proof fn lemma_unique_keys_listed(entries: Seq<KeyEntry>, key: Seq<char>)
    requires
        unique_keys(entries).contains(key),
    ensures
        exists|i: int| 0 <= i < entries.len() && (#[trigger] entries[i]).key@ == key,
    decreases entries.len(),
{
    if entries.len() > 0 {
        let rest = entries.drop_last();
        if unique_keys(rest).contains(key) {
            lemma_unique_keys_listed(rest, key);
            let i = choose|i: int| 0 <= i < rest.len() && (#[trigger] rest[i]).key@ == key;
            assert(entries[i].key@ == key);
        } else {
            assert(entries[entries.len() - 1].key@ == key) by {
                let all = unique_keys(entries);
                let k = choose|k: int| 0 <= k < all.len() && all[k] == key;
                if k < unique_keys(rest).len() {
                    assert(unique_keys(rest)[k] == key);
                }
            }
        }
    }
}

proof fn lemma_listed_key_is_listed(entries: Seq<KeyEntry>, db_name: Seq<char>, ending: Seq<char>)
    ensures
        exact_key(entries, db_name) is Some ==> exists|i: int|
            0 <= i < entries.len() && (#[trigger] entries[i]).key@ == exact_key(
                entries,
                db_name,
            )->0,
        key_by_ending(entries, ending) is Some ==> exists|i: int|
            0 <= i < entries.len() && (#[trigger] entries[i]).key@ == key_by_ending(
                entries,
                ending,
            )->0,
    decreases entries.len(),
{
    if entries.len() > 0 {
        let rest = entries.skip(1);
        lemma_listed_key_is_listed(rest, db_name, ending);
        if exact_key(entries, db_name) is Some {
            if entries[0].db_name@ == db_name {
                assert(entries[0].key@ == exact_key(entries, db_name)->0);
            } else {
                let i = choose|i: int|
                    0 <= i < rest.len() && (#[trigger] rest[i]).key@ == exact_key(rest, db_name)->0;
                assert(entries[i + 1].key@ == exact_key(entries, db_name)->0);
            }
        }
        if key_by_ending(entries, ending) is Some {
            if crate::text::has_suffix(entries[0].db_name@, ending) {
                assert(entries[0].key@ == key_by_ending(entries, ending)->0);
            } else {
                let i = choose|i: int|
                    0 <= i < rest.len() && (#[trigger] rest[i]).key@ == key_by_ending(
                        rest,
                        ending,
                    )->0;
                assert(entries[i + 1].key@ == key_by_ending(entries, ending)->0);
            }
        }
    }
}

/// The keys that are tried on a database, in order.
pub fn key_attempts(
    entries: &Vec<KeyEntry>,
    db_name: &str,
    key_hex: &str,
    key_bytes: &Vec<u8>,
) -> (attempts: Vec<KeyAttempt>)
    requires
        entries_cut_into_pairs(entries@),
    ensures
        attempts_view(attempts@) == attempts_for(entries@, db_name@, key_hex@, key_bytes@),
{
    let mut attempts: Vec<KeyAttempt> = Vec::new();
    let ghost mut own: Seq<(Seq<char>, Seq<u8>)> = seq![];
    if let Some(key) = lookup_db_key(entries, db_name) {
        proof {
            lemma_listed_key_is_listed(entries@, db_name@, file_name_of(db_name@));
        }
        let bytes = match hex_to_bytes(key.as_str()) {
            Ok(bytes) => bytes,
            Err(_) => Vec::new(),
        };
        proof {
            own = seq![(key@, bytes@)];
            if hex_bytes(encode_utf8(key@)) is None {
                assert(bytes@ =~= Seq::<u8>::empty());
            }
        }
        attempts.push(KeyAttempt { key_hex: key, key_bytes: bytes });
        proof {
            assert(attempts_view(attempts@) =~= own);
        }
    } else {
        proof {
            assert(attempts_view(attempts@) =~= own);
        }
    }
    let mut bytes: Vec<u8> = Vec::new();
    bytes.extend_from_slice(key_bytes.as_slice());
    proof {
        assert(bytes@ =~= key_bytes@);
    }
    attempts.push(KeyAttempt { key_hex: key_hex.to_owned(), key_bytes: bytes });
    let ghost start = own.push((key_hex@, key_bytes@));
    proof {
        assert(attempts_view(attempts@) =~= start);
    }
    let keys = all_json_keys(entries);
    let ghost all = crate::text::texts_of(keys@);
    let mut i: usize = 0;
    while i < keys.len()
        invariant
            i <= keys@.len(),
            entries_cut_into_pairs(entries@),
            all == crate::text::texts_of(keys@),
            all == unique_keys(entries@),
            attempts_view(attempts@) =~= start + remaining_attempts(all.take(i as int), key_hex@),
        decreases keys@.len() - i,
    {
        let ghost before = attempts_view(attempts@);
        proof {
            assert(all.take(i + 1).drop_last() =~= all.take(i as int));
            assert(all.take(i + 1).last() == keys@[i as int]@);
            assert(all[i as int] == keys@[i as int]@);
            assert(all.contains(all[i as int]));
            lemma_unique_keys_listed(entries@, keys@[i as int]@);
        }
        if !text_eq(keys[i].as_str(), key_hex) {
            if let Ok(bytes) = hex_to_bytes(keys[i].as_str()) {
                let ghost pair = (keys@[i as int]@, bytes@);
                attempts.push(KeyAttempt { key_hex: keys[i].clone(), key_bytes: bytes });
                proof {
                    assert(attempts_view(attempts@) =~= before.push(pair));
                }
            }
        }
        i = i + 1;
    }
    proof {
        assert(all.take(all.len() as int) =~= all);
        assert(attempts_view(attempts@) =~= attempts_for(
            entries@,
            db_name@,
            key_hex@,
            key_bytes@,
        ));
    }
    attempts
}

proof fn lemma_unique_keys_fewer(entries: Seq<KeyEntry>)
    ensures
        unique_keys(entries).len() <= entries.len(),
    decreases entries.len(),
{
    if entries.len() > 0 {
        lemma_unique_keys_fewer(entries.drop_last());
    }
}

/// The words for a database that no key opens.
pub fn no_key_message(db_name: &str, entries: &Vec<KeyEntry>) -> (text: String)
    requires
        entries@.len() < usize::MAX,
    ensures
        text@ == "数据库解密验证失败: "@ + db_name@ + " (已尝试 "@ + crate::number::digits(
            unique_keys(entries@).len() + 1,
        ) + " 个密钥)"@,
{
    let keys = all_json_keys(entries);
    let mut text = "数据库解密验证失败: ".to_owned().concat(db_name).concat(" (已尝试 ");
    proof {
        assert(keys@.len() == crate::text::texts_of(keys@).len());
        lemma_unique_keys_fewer(entries@);
    }
    let count: u64 = keys.len() as u64;
    crate::number::push_u64(&mut text, count + 1);
    text.concat(" 个密钥)")
}

/// The statement that hands a derived key to the database, which then derives nothing.
pub fn key_pragma(key_hex: &str) -> (sql: String)
    ensures
        sql@ == "PRAGMA key = \"x'"@ + key_hex@ + "'\";"@,
{
    "PRAGMA key = \"x'".to_owned().concat(key_hex).concat("'\";")
}

/// Whether a key is already derived: such a key has forty-eight bytes.
pub fn is_derived(key_bytes: &Vec<u8>) -> (derived: bool)
    ensures
        derived == (key_bytes@.len() == 48),
{
    key_bytes.len() == 48
}

/// The account's own key is always tried.
pub proof fn own_key_is_tried(
    entries: Seq<KeyEntry>,
    db_name: Seq<char>,
    key_hex: Seq<char>,
    key_bytes: Seq<u8>,
)
    ensures
        attempts_for(entries, db_name, key_hex, key_bytes).contains((key_hex, key_bytes)),
        attempts_for(entries, db_name, key_hex, key_bytes).len() >= 1,
{
    let all = attempts_for(entries, db_name, key_hex, key_bytes);
    if listed_key(entries, db_name) is Some {
        assert(all[1] == (key_hex, key_bytes));
    } else {
        assert(all[0] == (key_hex, key_bytes));
    }
}

// ---------------------------------------------------------------------------
// Laws of keys
// ---------------------------------------------------------------------------

/// The digits of either case have the values that they stand for, and nothing else is a
/// digit.
pub proof fn digits_have_their_values(d: u8, b: u8)
    ensures
        d < 10 ==> hex_digit((0x30 + d) as u8) == Some(d),
        10 <= d < 16 ==> hex_digit((0x61 + d - 10) as u8) == Some(d) && hex_digit(
            (0x41 + d - 10) as u8,
        ) == Some(d),
        hex_digit(b) is Some ==> hex_digit(b)->0 < 16 && (b == 0x30 + hex_digit(b)->0 || b == 0x57
            + hex_digit(b)->0 || b == 0x37 + hex_digit(b)->0),
{
}

/// Whether two characters are the digits of a byte.
pub open spec fn writes_value(text: Seq<u8>, k: int, value: u8) -> bool {
    &&& hex_digit(text[2 * k]) == Some((value / 16) as u8)
    &&& hex_digit(text[2 * k + 1]) == Some((value % 16) as u8)
}

proof fn lemma_pairs_from(text: Seq<u8>, values: Seq<u8>, n: int)
    requires
        0 <= n <= values.len(),
        text.len() == 2 * values.len(),
        forall|k: int| 0 <= k < values.len() ==> writes_value(text, k, #[trigger] values[k]),
    ensures
        first_bad_pair(text, 2 * n) == text.len(),
        pair_values(text, 2 * n) == values.skip(n),
    decreases values.len() - n,
{
    if n < values.len() {
        lemma_pairs_from(text, values, n + 1);
        let value = values[n];
        assert(writes_value(text, n, values[n]));
        assert((value / 16) * 16 + value % 16 == value);
        assert(pair_value(text[2 * n], text[2 * n + 1]) == Some(value));
        assert(seq![value] + values.skip(n + 1) =~= values.skip(n));
    } else {
        assert(values.skip(n) =~= Seq::<u8>::empty());
    }
}

/// A key that is written in hexadecimal is read as the bytes that it writes, whatever the
/// case of its digits.
pub proof fn keys_are_read_as_written(text: Seq<u8>, values: Seq<u8>)
    requires
        text.len() == 2 * values.len(),
        forall|k: int| 0 <= k < values.len() ==> writes_value(text, k, #[trigger] values[k]),
    ensures
        hex_bytes(text) == Some(values),
{
    lemma_pairs_from(text, values, 0);
    assert(values.skip(0) =~= values);
}

/// What has an odd length is no key, and a key has half as many bytes as it has digits.
pub proof fn keys_have_two_digits_a_byte(text: Seq<u8>)
    ensures
        text.len() % 2 != 0 ==> hex_bytes(text) is None,
        hex_bytes(text) is Some ==> 2 * hex_bytes(text)->0.len() == text.len(),
{
    if text.len() % 2 == 0 {
        lemma_pairs_len(text, 0);
    }
}

proof fn lemma_pairs_len(text: Seq<u8>, from: int)
    requires
        0 <= from <= text.len(),
        from % 2 == 0,
        text.len() % 2 == 0,
    ensures
        2 * pair_values(text, from).len() == text.len() - from,
    decreases text.len() - from,
{
    if from + 2 <= text.len() {
        lemma_pairs_len(text, from + 2);
    }
}

/// The mark of the device is taken off the name of a directory, and nothing else: what
/// stands behind the last underscore, where it is two to six letters or digits.
pub proof fn device_marks_are_taken_off(account: Seq<char>, suffix: Seq<char>)
    requires
        !suffix.contains('_'),
    ensures
        ({
            let name = account + seq!['_'] + suffix;
            &&& 2 <= suffix.len() <= 6 && (forall|k: int|
                0 <= k < suffix.len() ==> alphanumeric(#[trigger] suffix[k]))
                && !crate::text::has_prefix(suffix, "wxid"@) ==> account_of_dir(name) == account
            &&& suffix.len() < 2 || suffix.len() > 6 ==> account_of_dir(name) == name
            &&& crate::text::has_prefix(suffix, "wxid"@) ==> account_of_dir(name) == name
            &&& account_of_dir(suffix) == suffix
        }),
{
    let name = account + seq!['_'] + suffix;
    crate::text::last_parts_are_last(account, suffix, '_');
    assert(name.take(name.len() - suffix.len() - 1) =~= account);
    crate::text::lemma_first_at(suffix, '_');
    assert(crate::text::last_part(suffix, '_') == suffix);
}

/// The account is that of the first directory of a path that is named after one; a path
/// without one leads to none.
pub proof fn paths_lead_to_their_account(
    front: Seq<Option<String>>,
    dir: String,
    back: Seq<Option<String>>,
)
    requires
        crate::text::has_prefix(dir@, "wxid_"@),
        forall|k: int|
            0 <= k < front.len() ==> !((#[trigger] front[k]) is Some && crate::text::has_prefix(
                front[k]->0@,
                "wxid_"@,
            )),
    ensures
        account_of_path(front + seq![Some(dir)] + back) == account_of_dir(dir@),
        account_of_path(front).len() == 0,
    decreases front.len(),
{
    let all = front + seq![Some(dir)] + back;
    if front.len() == 0 {
        assert(all[0] == Some(dir));
    } else {
        let rest = front.skip(1);
        assert(all[0] == front[0]);
        assert(all.skip(1) =~= rest + seq![Some(dir)] + back);
        assert forall|k: int| 0 <= k < rest.len() implies !((#[trigger] rest[k]) is Some
            && crate::text::has_prefix(rest[k]->0@, "wxid_"@)) by {
            assert(rest[k] == front[k + 1]);
        }
        paths_lead_to_their_account(rest, dir, back);
    }
}

/// The file name in a path is what stands behind its last separator.
pub proof fn file_names_stand_last(name: Seq<char>, dir: Seq<char>)
    requires
        name.len() > 0,
        !name.contains('/'),
        name != "."@,
        name != ".."@,
        !dir.contains('/'),
    ensures
        file_name_of(name) == name,
        file_name_of(dir + seq!['/'] + name) == name,
{
    crate::text::parts_are_split_apart(name, seq![], '/');
    assert(seq![name].last() == name);
    crate::text::parts_are_split_apart(dir, name, '/');
    let parts = seq![dir] + seq![name];
    assert(parts.last() == name);
}

/// Of several key files the first that can be read counts, and the others do not.
pub proof fn the_first_key_file_counts(contents: Seq<Option<String>>, i: int)
    requires
        0 <= i < contents.len(),
        contents[i] is Some,
        crate::outside::keys_in(contents[i]->0@) is Some,
        forall|k: int|
            0 <= k < i ==> (#[trigger] contents[k]) is None || crate::outside::keys_in(
                contents[k]->0@,
            ) is None,
    ensures
        first_keys(contents) == crate::outside::keys_in(contents[i]->0@),
    decreases i,
{
    if i > 0 {
        let rest = contents.skip(1);
        assert(contents[0] is None || crate::outside::keys_in(contents[0]->0@) is None);
        assert forall|k: int| 0 <= k < i - 1 implies (#[trigger] rest[k]) is None
            || crate::outside::keys_in(rest[k]->0@) is None by {
            assert(rest[k] == contents[k + 1]);
        }
        the_first_key_file_counts(rest, i - 1);
    }
}

/// The key of a database is the first that is listed for exactly its path; where none is,
/// the first that is listed for a path which ends in its file name; and none where there is
/// no such path either.
pub proof fn keys_are_looked_up(entries: Seq<KeyEntry>, db_name: Seq<char>, i: int)
    requires
        0 <= i < entries.len(),
    ensures
        entries[i].db_name@ == db_name && (forall|k: int|
            0 <= k < i ==> (#[trigger] entries[k]).db_name@ != db_name) ==> listed_key(
            entries,
            db_name,
        ) == Some(entries[i].key@),
        (forall|k: int| 0 <= k < entries.len() ==> (#[trigger] entries[k]).db_name@ != db_name)
            && crate::text::has_suffix(entries[i].db_name@, file_name_of(db_name)) && (forall|
            k: int,
        |
            0 <= k < i ==> !crate::text::has_suffix(
                (#[trigger] entries[k]).db_name@,
                file_name_of(db_name),
            )) ==> listed_key(entries, db_name) == Some(entries[i].key@),
        (forall|k: int|
            0 <= k < entries.len() ==> (#[trigger] entries[k]).db_name@ != db_name
                && !crate::text::has_suffix(entries[k].db_name@, file_name_of(db_name)))
            ==> listed_key(entries, db_name) is None,
{
    let ending = file_name_of(db_name);
    if entries[i].db_name@ == db_name && (forall|k: int|
        0 <= k < i ==> (#[trigger] entries[k]).db_name@ != db_name) {
        lemma_exact_key(entries, db_name, i);
    }
    if forall|k: int| 0 <= k < entries.len() ==> (#[trigger] entries[k]).db_name@ != db_name {
        lemma_exact_key(entries, db_name, entries.len() as int);
        if crate::text::has_suffix(entries[i].db_name@, ending) && (forall|k: int|
            0 <= k < i ==> !crate::text::has_suffix((#[trigger] entries[k]).db_name@, ending)) {
            lemma_key_by_ending(entries, ending, i);
        }
        if forall|k: int|
            0 <= k < entries.len() ==> (#[trigger] entries[k]).db_name@ != db_name
                && !crate::text::has_suffix(entries[k].db_name@, ending) {
            lemma_key_by_ending(entries, ending, entries.len() as int);
        }
    }
}

proof fn lemma_exact_key(entries: Seq<KeyEntry>, db_name: Seq<char>, i: int)
    requires
        0 <= i <= entries.len(),
        i < entries.len() ==> entries[i].db_name@ == db_name,
        forall|k: int| 0 <= k < i ==> (#[trigger] entries[k]).db_name@ != db_name,
    ensures
        exact_key(entries, db_name) == if i < entries.len() {
            Some(entries[i].key@)
        } else {
            None
        },
    decreases i,
{
    if i > 0 {
        let rest = entries.skip(1);
        assert(entries[0].db_name@ != db_name);
        assert forall|k: int| 0 <= k < i - 1 implies (#[trigger] rest[k]).db_name@ != db_name by {
            assert(rest[k] == entries[k + 1]);
        }
        lemma_exact_key(rest, db_name, i - 1);
    }
}

proof fn lemma_key_by_ending(entries: Seq<KeyEntry>, ending: Seq<char>, i: int)
    requires
        0 <= i <= entries.len(),
        i < entries.len() ==> crate::text::has_suffix(entries[i].db_name@, ending),
        forall|k: int|
            0 <= k < i ==> !crate::text::has_suffix((#[trigger] entries[k]).db_name@, ending),
    ensures
        key_by_ending(entries, ending) == if i < entries.len() {
            Some(entries[i].key@)
        } else {
            None
        },
    decreases i,
{
    if i > 0 {
        let rest = entries.skip(1);
        assert(!crate::text::has_suffix(entries[0].db_name@, ending));
        assert forall|k: int| 0 <= k < i - 1 implies !crate::text::has_suffix(
            (#[trigger] rest[k]).db_name@,
            ending,
        ) by {
            assert(rest[k] == entries[k + 1]);
        }
        lemma_key_by_ending(rest, ending, i - 1);
    }
}

proof fn lemma_unique_keys(entries: Seq<KeyEntry>)
    ensures
        forall|i: int|
            0 <= i < entries.len() ==> unique_keys(entries).contains((#[trigger] entries[i]).key@),
        forall|a: int, b: int|
            #![trigger unique_keys(entries)[a], unique_keys(entries)[b]]
            0 <= a < b < unique_keys(entries).len() ==> unique_keys(entries)[a] != unique_keys(
                entries,
            )[b],
    decreases entries.len(),
{
    if entries.len() > 0 {
        let rest = entries.drop_last();
        lemma_unique_keys(rest);
        let before = unique_keys(rest);
        let all = unique_keys(entries);
        assert forall|i: int| 0 <= i < entries.len() implies all.contains(
            (#[trigger] entries[i]).key@,
        ) by {
            if i < rest.len() {
                assert(rest[i] == entries[i]);
                let k = choose|k: int| 0 <= k < before.len() && before[k] == rest[i].key@;
                assert(all[k] == entries[i].key@);
            } else if !before.contains(entries.last().key@) {
                assert(all[before.len() as int] == entries[i].key@);
            }
        }
        assert forall|a: int, b: int|
            #![trigger all[a], all[b]]
            0 <= a < b < all.len() implies all[a] != all[b] by {
            if b < before.len() {
                assert(before[a] != before[b]);
            } else {
                assert(before.contains(before[a]));
            }
        }
    }
}

proof fn lemma_remaining(keys: Seq<Seq<char>>, key_hex: Seq<char>, key: Seq<char>, bytes: Seq<u8>)
    ensures
        remaining_attempts(keys, key_hex).contains((key, bytes)) <==> keys.contains(key) && key
            != key_hex && hex_bytes(encode_utf8(key)) == Some(bytes),
    decreases keys.len(),
{
    if keys.len() > 0 {
        let rest = keys.drop_last();
        lemma_remaining(rest, key_hex, key, bytes);
        let before = remaining_attempts(rest, key_hex);
        let all = remaining_attempts(keys, key_hex);
        if all.contains((key, bytes)) {
            let k = choose|k: int| 0 <= k < all.len() && all[k] == (key, bytes);
            if k < before.len() {
                assert(before[k] == (key, bytes));
                let n = choose|n: int| 0 <= n < rest.len() && rest[n] == key;
                assert(keys[n] == key);
            } else {
                assert(keys[keys.len() - 1] == key);
            }
        }
        if keys.contains(key) && key != key_hex && hex_bytes(encode_utf8(key)) == Some(bytes) {
            let k = choose|k: int| 0 <= k < keys.len() && keys[k] == key;
            if k < rest.len() {
                assert(rest[k] == key);
                let n = choose|n: int| 0 <= n < before.len() && before[n] == (key, bytes);
                assert(all[n] == (key, bytes));
            } else {
                assert(all[before.len() as int] == (key, bytes));
            }
        }
    }
}

/// Which keys are tried on a database, and in which order: first the one that is listed for
/// it, where there is one; next the account's; and behind them every listed key that is
/// written properly, whatever database it is listed for.
pub proof fn every_key_is_tried(
    entries: Seq<KeyEntry>,
    db_name: Seq<char>,
    key_hex: Seq<char>,
    key_bytes: Seq<u8>,
    i: int,
)
    requires
        0 <= i < entries.len(),
    ensures
        ({
            let all = attempts_for(entries, db_name, key_hex, key_bytes);
            let own = listed_key(entries, db_name);
            &&& own is Some ==> all.len() >= 2 && all[0].0 == own->0 && all[1] == (
                key_hex,
                key_bytes,
            )
            &&& own is Some && hex_bytes(encode_utf8(own->0)) is Some ==> all[0].1 == hex_bytes(
                encode_utf8(own->0),
            )->0
            &&& own is None ==> all[0] == (key_hex, key_bytes)
            &&& entries[i].key@ != key_hex && hex_bytes(encode_utf8(entries[i].key@)) is Some
                ==> all.contains(
                (entries[i].key@, hex_bytes(encode_utf8(entries[i].key@))->0),
            )
        }),
{
    let all = attempts_for(entries, db_name, key_hex, key_bytes);
    let rest = remaining_attempts(unique_keys(entries), key_hex);
    lemma_unique_keys(entries);
    assert(unique_keys(entries).contains(entries[i].key@));
    if entries[i].key@ != key_hex && hex_bytes(encode_utf8(entries[i].key@)) is Some {
        let pair = (entries[i].key@, hex_bytes(encode_utf8(entries[i].key@))->0);
        lemma_remaining(unique_keys(entries), key_hex, pair.0, pair.1);
        let k = choose|k: int| 0 <= k < rest.len() && rest[k] == pair;
        assert(all[all.len() - rest.len() + k] == pair);
    }
}

/// Every listed key is counted once.
pub proof fn listed_keys_are_counted_once(entries: Seq<KeyEntry>, key: Seq<char>)
    ensures
        unique_keys(entries).contains(key) <==> exists|i: int|
            0 <= i < entries.len() && (#[trigger] entries[i]).key@ == key,
        unique_keys(entries).no_duplicates(),
{
    lemma_unique_keys(entries);
    if unique_keys(entries).contains(key) {
        lemma_unique_keys_listed(entries, key);
    }
}

/// An entry of a key file is kept exactly where its key can be cut into pairs, under its
/// own name and with its own key.
pub proof fn entries_are_kept(pairs: Seq<(String, String)>, more: Seq<(String, String)>)
    ensures
        entries_of(pairs + more) == entries_of(pairs) + entries_of(more),
        pairs.len() == 1 && cuts_into_pairs(encode_utf8(pairs[0].1@)) ==> entries_of(pairs)
            == seq![(pairs[0].0@, pairs[0].1@)],
        pairs.len() == 1 && !cuts_into_pairs(encode_utf8(pairs[0].1@)) ==> entries_of(pairs).len()
            == 0,
    decreases more.len(),
{
    reveal_with_fuel(entries_of, 2);
    if more.len() == 0 {
        assert(pairs + more =~= pairs);
        assert(entries_of(pairs) + entries_of(more) =~= entries_of(pairs));
    } else {
        entries_are_kept(pairs, more.drop_last());
        assert((pairs + more).drop_last() =~= pairs + more.drop_last());
        assert((pairs + more).last() == more.last());
        assert(entries_of(pairs + more) =~= entries_of(pairs) + entries_of(more));
    }
    if pairs.len() == 1 {
        assert(pairs.drop_last() =~= Seq::<(String, String)>::empty());
        assert(entries_of(pairs.drop_last()) =~= Seq::<(Seq<char>, Seq<char>)>::empty());
        if cuts_into_pairs(encode_utf8(pairs[0].1@)) {
            assert(entries_of(pairs) =~= seq![(pairs[0].0@, pairs[0].1@)]);
        }
    }
}

/// A key that cannot be read is refused for its length, or for the first pair of characters
/// that is none of digits, whatever stands behind it.
pub proof fn faults_are_told(error: KeyError, bytes: Seq<u8>, k: int)
    requires
        is_fault_of(error, bytes),
    ensures
        error is OddLength <==> bytes.len() % 2 != 0,
        error matches KeyError::InvalidPair(pair) ==> exists|at: int|
            0 <= at && at + 2 <= bytes.len() && #[trigger] bytes.subrange(at, at + 2)
                == encode_utf8(pair@) && pair_value(bytes[at], bytes[at + 1]) is None,
        error is InvalidPair && 0 <= k && k % 2 == 0 && k + 2 <= bytes.len() && pair_value(
            bytes[k],
            bytes[k + 1],
        ) is None ==> first_bad_pair(bytes, 0) <= k,
{
    lemma_first_bad_bound(bytes, 0, k);
    if error is InvalidPair {
        let at = first_bad_pair(bytes, 0);
        assert(bytes.subrange(at, at + 2) == encode_utf8(error->InvalidPair_0@));
    }
}

proof fn lemma_first_bad_bound(bytes: Seq<u8>, from: int, k: int)
    requires
        0 <= from <= bytes.len(),
        from % 2 == 0,
    ensures
        from <= first_bad_pair(bytes, from) <= bytes.len(),
        first_bad_pair(bytes, from) % 2 == 0,
        bytes.len() % 2 == 0 && first_bad_pair(bytes, from) < bytes.len() ==> first_bad_pair(
            bytes,
            from,
        ) + 2 <= bytes.len() && pair_value(
            bytes[first_bad_pair(bytes, from)],
            bytes[first_bad_pair(bytes, from) + 1],
        ) is None,
        from <= k && k % 2 == 0 && k + 2 <= bytes.len() && pair_value(bytes[k], bytes[k + 1])
            is None ==> first_bad_pair(bytes, from) <= k,
    decreases bytes.len() - from,
{
    if from + 2 <= bytes.len() && pair_value(bytes[from], bytes[from + 1]) is Some {
        lemma_first_bad_bound(bytes, from + 2, k);
    }
}

} // verus!
