//! Numbers as text: decimal and hexadecimal, written and read.

use vstd::prelude::*;

use crate::text::{ascii_digit, to_chars};

verus! {

// ---------------------------------------------------------------------------
// Writing
// ---------------------------------------------------------------------------

/// The character of a decimal or small hexadecimal digit.
pub open spec fn digit_char(d: int) -> char {
    if d < 10 {
        ((0x30 + d) as u8) as char
    } else {
        ((0x61 + d - 10) as u8) as char
    }
}

/// `n` in decimal, without leading zeros.
pub open spec fn digits(n: nat) -> Seq<char>
    decreases n,
{
    if n < 10 {
        seq![digit_char(n as int)]
    } else {
        digits(n / 10).push(digit_char((n % 10) as int))
    }
}

/// `n` in decimal, with a minus sign where it is negative.
pub open spec fn decimal(n: int) -> Seq<char> {
    if n < 0 {
        seq!['-'] + digits((-n) as nat)
    } else {
        digits(n as nat)
    }
}

/// Appends `n` in decimal.
pub fn push_u64(text: &mut String, n: u64)
    ensures
        final(text)@ == old(text)@ + digits(n as nat),
    decreases n,
{
    let ghost before = text@;
    if n >= 10 {
        push_u64(text, n / 10);
    }
    let d: u8 = (n % 10) as u8;
    text.push((0x30 + d) as char);
    proof {
        if n < 10 {
            assert(text@ =~= before + digits(n as nat));
        } else {
            assert(text@ =~= before + digits(n as nat / 10).push(digit_char(n as int % 10)));
        }
    }
}

/// Appends `n` in decimal, with its sign.
pub fn push_i64(text: &mut String, n: i64)
    ensures
        final(text)@ == old(text)@ + decimal(n as int),
{
    let ghost before = text@;
    if n < 0 {
        text.push('-');
        let magnitude: u64 = (0 - (n as i128)) as u64;
        push_u64(text, magnitude);
        proof {
            assert(text@ =~= before + decimal(n as int));
        }
    } else {
        push_u64(text, n as u64);
    }
}

/// `n` in hexadecimal, written with `width` small digits.
pub open spec fn hex_digits(n: nat, width: nat) -> Seq<char>
    decreases width,
{
    if width == 0 {
        seq![]
    } else {
        hex_digits(n / 16, (width - 1) as nat).push(digit_char((n % 16) as int))
    }
}

/// Appends the low `width` hexadecimal digits of `n`.
pub fn push_hex(text: &mut String, n: u64, width: u8)
    ensures
        final(text)@ == old(text)@ + hex_digits(n as nat, width as nat),
    decreases width,
{
    let ghost before = text@;
    if width > 0 {
        push_hex(text, n / 16, width - 1);
        let d: u8 = (n % 16) as u8;
        if d < 10 {
            text.push((0x30 + d) as char);
        } else {
            text.push((0x61 + (d - 10)) as char);
        }
        proof {
            assert(text@ =~= before + hex_digits(n as nat / 16, (width - 1) as nat).push(
                digit_char(n as int % 16),
            ));
        }
    } else {
        proof {
            assert(text@ =~= before + seq![]);
        }
    }
}

// ---------------------------------------------------------------------------
// Reading
// ---------------------------------------------------------------------------

pub open spec fn only_digits(text: Seq<char>) -> bool {
    forall|k: int| 0 <= k < text.len() ==> ascii_digit(#[trigger] text[k])
}

/// The number that the decimal digits of `text` stand for.
pub open spec fn digits_value(text: Seq<char>) -> nat
    decreases text.len(),
{
    if text.len() == 0 {
        0
    } else {
        digits_value(text.drop_last()) * 10 + (text.last() as nat - 0x30) as nat
    }
}

/// The number that `text` writes: decimal digits behind an optional plus sign.
pub open spec fn unsigned_value(text: Seq<char>) -> Option<nat> {
    let body = if text.len() > 0 && text[0] == '+' {
        text.skip(1)
    } else {
        text
    };
    if body.len() > 0 && only_digits(body) {
        Some(digits_value(body))
    } else {
        None
    }
}

/// The number that `text` writes: decimal digits behind an optional sign.
pub open spec fn signed_value(text: Seq<char>) -> Option<int> {
    if text.len() > 0 && text[0] == '-' {
        let body = text.skip(1);
        if body.len() > 0 && only_digits(body) {
            Some(-(digits_value(body) as int))
        } else {
            None
        }
    } else {
        match unsigned_value(text) {
            Some(n) => Some(n as int),
            None => None,
        }
    }
}

/// The number that `text` writes, where it is at most `max`.
pub open spec fn parsed_unsigned(text: Seq<char>, max: int) -> Option<int> {
    match unsigned_value(text) {
        Some(n) => if n <= max {
            Some(n as int)
        } else {
            None
        },
        None => None,
    }
}

/// The number that `text` writes, where it lies between `min` and `max`.
pub open spec fn parsed_signed(text: Seq<char>, min: int, max: int) -> Option<int> {
    match signed_value(text) {
        Some(n) => if min <= n <= max {
            Some(n)
        } else {
            None
        },
        None => None,
    }
}

proof fn lemma_digits_value_prefix(text: Seq<char>, i: int)
    requires
        0 <= i <= text.len(),
    ensures
        digits_value(text.take(i)) <= digits_value(text),
    decreases text.len() - i,
{
    if i == text.len() {
        assert(text.take(i) =~= text);
    } else {
        lemma_digits_value_prefix(text, i + 1);
        assert(text.take(i + 1).drop_last() =~= text.take(i));
    }
}

/// The value of the digits of `chars` from `from` on, where it is at most `max`.
fn read_digits(chars: &Vec<char>, from: usize, max: u64) -> (value: Option<u64>)
    requires
        from <= chars@.len(),
    ensures
        ({
            let body = chars@.skip(from as int);
            match value {
                Some(n) => body.len() > 0 && only_digits(body) && n == digits_value(body) && n
                    <= max,
                None => !(body.len() > 0 && only_digits(body) && digits_value(body) <= max),
            }
        }),
{
    if from == chars.len() {
        return None;
    }
    let ghost body = chars@.skip(from as int);
    let mut n: u64 = 0;
    let mut i: usize = from;
    proof {
        assert(body.take(0) =~= Seq::<char>::empty());
    }
    while i < chars.len()
        invariant
            from <= i <= chars@.len(),
            body == chars@.skip(from as int),
            only_digits(body.take(i - from)),
            n == digits_value(body.take(i - from)),
            n <= max,
        decreases chars@.len() - i,
    {
        let c = chars[i];
        proof {
            assert(body[i - from] == c);
            assert(body.take(i - from + 1).drop_last() =~= body.take(i - from));
        }
        if !('0' <= c && c <= '9') {
            proof {
                assert(!ascii_digit(body[i - from]));
            }
            return None;
        }
        let d: u64 = (c as u64) - 0x30;
        let next: u128 = (n as u128) * 10 + d as u128;
        if next > max as u128 {
            proof {
                lemma_digits_value_prefix(body, i - from + 1);
            }
            return None;
        }
        n = next as u64;
        i = i + 1;
    }
    proof {
        assert(body.take(body.len() as int) =~= body);
    }
    Some(n)
}

fn read_unsigned(chars: &Vec<char>, max: u64) -> (value: Option<u64>)
    ensures
        match value {
            Some(n) => parsed_unsigned(chars@, max as int) == Some(n as int),
            None => parsed_unsigned(chars@, max as int) is None,
        },
{
    proof {
        assert(chars@.skip(0) =~= chars@);
    }
    if chars.len() > 0 && chars[0] == '+' {
        read_digits(chars, 1, max)
    } else {
        read_digits(chars, 0, max)
    }
}

/// Reads an unsigned 64-bit number.
pub fn parse_u64(text: &str) -> (value: Option<u64>)
    ensures
        match value {
            Some(n) => parsed_unsigned(text@, u64::MAX as int) == Some(n as int),
            None => parsed_unsigned(text@, u64::MAX as int) is None,
        },
{
    read_unsigned(&to_chars(text), u64::MAX)
}

/// Reads an unsigned 32-bit number.
pub fn parse_u32(text: &str) -> (value: Option<u32>)
    ensures
        match value {
            Some(n) => parsed_unsigned(text@, u32::MAX as int) == Some(n as int),
            None => parsed_unsigned(text@, u32::MAX as int) is None,
        },
{
    match read_unsigned(&to_chars(text), u32::MAX as u64) {
        Some(n) => Some(n as u32),
        None => None,
    }
}

/// Reads a signed 64-bit number.
pub fn parse_i64(text: &str) -> (value: Option<i64>)
    ensures
        match value {
            Some(n) => parsed_signed(text@, i64::MIN as int, i64::MAX as int) == Some(n as int),
            None => parsed_signed(text@, i64::MIN as int, i64::MAX as int) is None,
        },
{
    let chars = to_chars(text);
    if chars.len() > 0 && chars[0] == '-' {
        match read_digits(&chars, 1, 0x8000_0000_0000_0000) {
            Some(n) => Some((0 - (n as i128)) as i64),
            None => None,
        }
    } else {
        match read_unsigned(&chars, i64::MAX as u64) {
            Some(n) => Some(n as i64),
            None => None,
        }
    }
}

/// Reads a signed 32-bit number.
pub fn parse_i32(text: &str) -> (value: Option<i32>)
    ensures
        match value {
            Some(n) => parsed_signed(text@, i32::MIN as int, i32::MAX as int) == Some(n as int),
            None => parsed_signed(text@, i32::MIN as int, i32::MAX as int) is None,
        },
{
    match parse_i64(text) {
        Some(n) => if i32::MIN as i64 <= n && n <= i32::MAX as i64 {
            Some(n as i32)
        } else {
            None
        },
        None => None,
    }
}

// ---------------------------------------------------------------------------
// Laws
// ---------------------------------------------------------------------------

/// What is written in decimal holds digits only, and reads back as the same number.
pub proof fn digits_read_back(n: nat)
    ensures
        digits(n).len() > 0,
        only_digits(digits(n)),
        digits_value(digits(n)) == n,
        unsigned_value(digits(n)) == Some(n),
    decreases n,
{
    reveal_with_fuel(digits_value, 2);
    if n < 10 {
        assert(digits(n).drop_last() =~= Seq::<char>::empty());
    } else {
        digits_read_back(n / 10);
        assert(digits(n).drop_last() =~= digits(n / 10));
        assert forall|k: int| 0 <= k < digits(n).len() implies ascii_digit(
            #[trigger] digits(n)[k],
        ) by {
            if k < digits(n / 10).len() {
                assert(digits(n)[k] == digits(n / 10)[k]);
            }
        }
    }
    assert(ascii_digit(digits(n)[0]));
}

/// A signed number reads back from its decimal text as itself.
pub proof fn decimal_reads_back(n: int)
    ensures
        signed_value(decimal(n)) == Some(n),
{
    if n < 0 {
        digits_read_back((-n) as nat);
        assert(decimal(n).skip(1) =~= digits((-n) as nat));
    } else {
        digits_read_back(n as nat);
        assert(ascii_digit(digits(n as nat)[0]));
    }
}

/// Different numbers have different decimal texts.
pub proof fn decimal_injective(a: int, b: int)
    requires
        decimal(a) == decimal(b),
    ensures
        a == b,
{
    decimal_reads_back(a);
    decimal_reads_back(b);
}

/// A decimal text holds digits and at most a minus sign.
pub proof fn decimal_chars(n: int)
    ensures
        decimal(n).len() > 0,
        forall|k: int|
            0 <= k < decimal(n).len() ==> (#[trigger] decimal(n)[k] == '-' || ascii_digit(
                decimal(n)[k],
            )),
{
    if n < 0 {
        digits_read_back((-n) as nat);
        assert forall|k: int| 0 <= k < decimal(n).len() implies (#[trigger] decimal(n)[k] == '-'
            || ascii_digit(decimal(n)[k])) by {
            if k > 0 {
                assert(decimal(n)[k] == digits((-n) as nat)[k - 1]);
            }
        }
    } else {
        digits_read_back(n as nat);
    }
}

/// A number within the bounds is read as it is written, and a number outside of them is not
/// read.
pub proof fn numbers_are_read_as_written(n: int, min: int, max: int)
    requires
        min <= 0,
    ensures
        parsed_signed(decimal(n), min, max) == if min <= n <= max {
            Some(n)
        } else {
            None
        },
        n >= 0 ==> parsed_unsigned(decimal(n), max) == if n <= max {
            Some(n)
        } else {
            None
        },
        n < 0 ==> parsed_unsigned(decimal(n), max) is None,
{
    decimal_reads_back(n);
    decimal_chars(n);
    if n < 0 {
        assert(decimal(n)[0] == '-');
        assert(!ascii_digit('-'));
    } else {
        assert(decimal(n)[0] != '-');
    }
}

/// A hexadecimal number of a given width has that many digits, each a small one, and the
/// last is what is left over when the number is divided by sixteen.
pub proof fn hex_numbers_have_their_width(n: nat, width: nat)
    ensures
        hex_digits(n, width).len() == width,
        forall|k: int|
            0 <= k < width ==> {
                let c = #[trigger] hex_digits(n, width)[k];
                '0' <= c <= '9' || 'a' <= c <= 'f'
            },
        width > 0 && n % 16 < 10 ==> hex_digits(n, width).last() as int == 0x30 + n % 16,
        width > 0 && n % 16 >= 10 ==> hex_digits(n, width).last() as int == 0x61 + n % 16 - 10,
        width > 0 ==> hex_digits(n, width).drop_last() == hex_digits(n / 16, (width - 1) as nat),
    decreases width,
{
    if width > 0 {
        hex_numbers_have_their_width(n / 16, (width - 1) as nat);
        assert(hex_digits(n, width).drop_last() =~= hex_digits(n / 16, (width - 1) as nat));
    }
}

/// A plus sign or zeros before a number do not change it.
pub proof fn plus_signs_and_zeros_change_nothing(text: Seq<char>)
    requires
        text.len() > 0,
        only_digits(text),
    ensures
        unsigned_value(text) == Some(digits_value(text)),
        unsigned_value(seq!['+'] + text) == unsigned_value(text),
        unsigned_value(seq!['0'] + text) == unsigned_value(text),
        signed_value(seq!['+'] + text) == Some(digits_value(text) as int),
        signed_value(seq!['-'] + text) == Some(-(digits_value(text) as int)),
{
    assert(ascii_digit(text[0]));
    assert((seq!['+'] + text).skip(1) =~= text);
    assert((seq!['-'] + text).skip(1) =~= text);
    lemma_zero_before(text);
    let padded = seq!['0'] + text;
    assert forall|k: int| 0 <= k < padded.len() implies ascii_digit(#[trigger] padded[k]) by {
        if k > 0 {
            assert(padded[k] == text[k - 1]);
        }
    }
}

proof fn lemma_zero_before(text: Seq<char>)
    ensures
        digits_value(seq!['0'] + text) == digits_value(text),
    decreases text.len(),
{
    let padded = seq!['0'] + text;
    if text.len() == 0 {
        reveal_with_fuel(digits_value, 2);
        assert(padded.drop_last() =~= Seq::<char>::empty());
    } else {
        lemma_zero_before(text.drop_last());
        assert(padded.drop_last() =~= seq!['0'] + text.drop_last());
        assert(padded.last() == text.last());
    }
}

} // verus!
