//! Hexadecimal text, and the raw literal under which an identifier without a
//! label is written: `0x` and ten hexadecimal digits.

use vstd::prelude::*;
use vstd::string::*;
use crate::hash::HASH_LIMIT;

verus! {

/// Number of hexadecimal digits in a raw literal.
pub const LITERAL_DIGITS: usize = 10;

/// Number of characters in a raw literal.
pub const LITERAL_LEN: usize = 12;

/// Sixteen raised to `n`.
pub open spec fn hex_pow(n: nat) -> nat
    decreases n,
{
    if n == 0 {
        1
    } else {
        16 * hex_pow((n - 1) as nat)
    }
}

/// The lower-case hexadecimal digit of a number below sixteen.
pub open spec fn hex_char(digit: nat) -> char {
    if digit < 10 {
        (48 + digit) as u8 as char
    } else {
        (87 + digit) as u8 as char
    }
}

/// The number that a hexadecimal digit of either case stands for.
pub open spec fn digit_value(c: char) -> Option<nat> {
    let code = c as u32;
    if 48 <= code <= 57 {
        Some((code - 48) as nat)
    } else if 97 <= code <= 102 {
        Some((code - 87) as nat)
    } else if 65 <= code <= 70 {
        Some((code - 55) as nat)
    } else {
        None
    }
}

/// Whether a text consists of hexadecimal digits.
pub open spec fn is_hex(text: Seq<char>) -> bool {
    forall|i: int| 0 <= i < text.len() ==> digit_value(#[trigger] text[i]) is Some
}

/// The number that a text of hexadecimal digits spells.
pub open spec fn hex_value(text: Seq<char>) -> nat
    decreases text.len(),
{
    if text.len() == 0 {
        0
    } else {
        16 * hex_value(text.drop_last()) + (match digit_value(text.last()) {
            Some(d) => d,
            None => 0,
        })
    }
}

/// The `width` low hexadecimal digits of a number, most significant first.
pub open spec fn hex_text(value: nat, width: nat) -> Seq<char>
    decreases width,
{
    if width == 0 {
        Seq::empty()
    } else {
        hex_text(value / 16, (width - 1) as nat).push(hex_char(value % 16))
    }
}

/// The number that one to ten hexadecimal digits spell; nothing for any other
/// text.
pub open spec fn hex_word(text: Seq<char>) -> Option<u64> {
    if 1 <= text.len() <= LITERAL_DIGITS && is_hex(text) {
        Some(hex_value(text) as u64)
    } else {
        None
    }
}

/// The number that `0x` and one to ten hexadecimal digits spell.
pub open spec fn prefixed_hex(text: Seq<char>) -> Option<u64> {
    if text.len() >= 2 && text[0] == '0' && text[1] == 'x' {
        hex_word(text.subrange(2, text.len() as int))
    } else {
        None
    }
}

/// The raw literal of a value: `0x` and its ten low hexadecimal digits.
pub open spec fn raw_literal(value: u64) -> Seq<char> {
    seq!['0', 'x'] + hex_text(value as nat, LITERAL_DIGITS as nat)
}

/// Whether a token has the form of a raw literal.
pub open spec fn is_raw_literal(token: Seq<char>) -> bool {
    token.len() == LITERAL_LEN && prefixed_hex(token) is Some
}

/// The value that a raw literal spells.
pub open spec fn literal_value(token: Seq<char>) -> u64 {
    hex_value(token.subrange(2, token.len() as int)) as u64
}

/// Sixteen to the tenth is two to the fortieth.
pub proof fn lemma_hex_pow_values()
    ensures
        hex_pow(0) == 1,
        hex_pow(LITERAL_DIGITS as nat) == HASH_LIMIT,
        forall|n: nat| n <= LITERAL_DIGITS ==> #[trigger] hex_pow(n) <= HASH_LIMIT,
{
    reveal_with_fuel(hex_pow, 12);
}

/// The digit of a number below sixteen stands for that number.
pub proof fn lemma_digit_of_hex_char(digit: nat)
    requires
        digit < 16,
    ensures
        digit_value(hex_char(digit)) == Some(digit),
{
}

/// A number written with `width` digits is `width` hexadecimal digits.
pub proof fn lemma_hex_text_shape(value: nat, width: nat)
    ensures
        hex_text(value, width).len() == width,
        is_hex(hex_text(value, width)),
    decreases width,
{
    if width > 0 {
        lemma_hex_text_shape(value / 16, (width - 1) as nat);
        lemma_digit_of_hex_char(value % 16);
    }
}

/// Digits spell a number below sixteen to the power of their count.
pub proof fn lemma_hex_value_bound(text: Seq<char>)
    ensures
        hex_value(text) < hex_pow(text.len()),
    decreases text.len(),
{
    if text.len() > 0 {
        lemma_hex_value_bound(text.drop_last());
    }
}

/// Reading the digits of a number that fits gives the number.
pub proof fn lemma_hex_round_trip(value: nat, width: nat)
    requires
        value < hex_pow(width),
    ensures
        hex_value(hex_text(value, width)) == value,
    decreases width,
{
    if width > 0 {
        let text = hex_text(value, width);
        lemma_hex_round_trip(value / 16, (width - 1) as nat);
        lemma_digit_of_hex_char(value % 16);
        assert(text.drop_last() =~= hex_text(value / 16, (width - 1) as nat));
        assert(text.last() == hex_char(value % 16));
    }
}

/// The raw literal of a 40-bit value has the form of a raw literal and spells
/// the value.
pub proof fn lemma_raw_literal_round_trip(value: u64)
    requires
        value < HASH_LIMIT,
    ensures
        is_raw_literal(raw_literal(value)),
        literal_value(raw_literal(value)) == value,
{
    let token = raw_literal(value);
    let digits = hex_text(value as nat, LITERAL_DIGITS as nat);
    lemma_hex_pow_values();
    lemma_hex_text_shape(value as nat, LITERAL_DIGITS as nat);
    lemma_hex_round_trip(value as nat, LITERAL_DIGITS as nat);
    assert(token.subrange(2, token.len() as int) =~= digits);
}

/// A raw literal spells a 40-bit value.
pub proof fn lemma_literal_value_bound(token: Seq<char>)
    requires
        is_raw_literal(token),
    ensures
        literal_value(token) < HASH_LIMIT,
        prefixed_hex(token) == Some(literal_value(token)),
{
    lemma_hex_pow_values();
    lemma_hex_value_bound(token.subrange(2, token.len() as int));
}

/// The text of one hexadecimal digit.
fn digit_text(digit: u64) -> (text: &'static str)
    requires
        digit < 16,
    ensures
        text@ == seq![hex_char(digit as nat)],
{
    proof {
        reveal_strlit("0");
        reveal_strlit("1");
        reveal_strlit("2");
        reveal_strlit("3");
        reveal_strlit("4");
        reveal_strlit("5");
        reveal_strlit("6");
        reveal_strlit("7");
        reveal_strlit("8");
        reveal_strlit("9");
        reveal_strlit("a");
        reveal_strlit("b");
        reveal_strlit("c");
        reveal_strlit("d");
        reveal_strlit("e");
        reveal_strlit("f");
    }
    let text = if digit == 0 {
        "0"
    } else if digit == 1 {
        "1"
    } else if digit == 2 {
        "2"
    } else if digit == 3 {
        "3"
    } else if digit == 4 {
        "4"
    } else if digit == 5 {
        "5"
    } else if digit == 6 {
        "6"
    } else if digit == 7 {
        "7"
    } else if digit == 8 {
        "8"
    } else if digit == 9 {
        "9"
    } else if digit == 10 {
        "a"
    } else if digit == 11 {
        "b"
    } else if digit == 12 {
        "c"
    } else if digit == 13 {
        "d"
    } else if digit == 14 {
        "e"
    } else {
        "f"
    };
    assert(text@ =~= seq![hex_char(digit as nat)]);
    text
}

/// Appends the `width` low hexadecimal digits of `value`.
fn append_hex(out: &mut String, value: u64, width: usize)
    ensures
        final(out)@ == old(out)@ + hex_text(value as nat, width as nat),
    decreases width,
{
    if width > 0 {
        append_hex(out, value / 16, width - 1);
        out.append(digit_text(value % 16));
        assert(out@ =~= old(out)@ + hex_text(value as nat, width as nat));
    } else {
        assert(out@ =~= old(out)@ + hex_text(value as nat, width as nat));
    }
}

/// Writes the raw literal of a value.
pub fn render_raw_literal(value: u64) -> (text: String)
    ensures
        text@ == raw_literal(value),
{
    let mut text = String::new();
    proof {
        reveal_strlit("0x");
    }
    text.append("0x");
    append_hex(&mut text, value, LITERAL_DIGITS);
    assert(text@ =~= raw_literal(value));
    text
}

/// The number that a hexadecimal digit stands for.
fn digit_of(c: char) -> (digit: Option<u64>)
    ensures
        digit is Some == digit_value(c) is Some,
        digit is Some ==> digit->Some_0 == digit_value(c)->Some_0 && digit->Some_0 < 16,
{
    let code: u32 = c as u32;
    if 48 <= code && code <= 57 {
        Some((code - 48) as u64)
    } else if 97 <= code && code <= 102 {
        Some((code - 87) as u64)
    } else if 65 <= code && code <= 70 {
        Some((code - 55) as u64)
    } else {
        None
    }
}

/// Reads a number written as one to ten hexadecimal digits.
pub fn parse_hex(text: &str) -> (word: Option<u64>)
    ensures
        word == hex_word(text@),
        word is Some ==> word->Some_0 < HASH_LIMIT,
{
    let count: usize = text.unicode_len();
    if count < 1 || count > LITERAL_DIGITS {
        return None;
    }
    let mut value: u64 = 0;
    let mut i: usize = 0;
    assert(text@.subrange(0, 0) =~= Seq::<char>::empty());
    while i < count
        invariant
            i <= count <= LITERAL_DIGITS,
            count == text@.len(),
            is_hex(text@.subrange(0, i as int)),
            value == hex_value(text@.subrange(0, i as int)),
        decreases count - i,
    {
        let ghost seen = text@.subrange(0, i as int);
        let ghost more = text@.subrange(0, i + 1);
        proof {
            lemma_hex_value_bound(seen);
            lemma_hex_pow_values();
            assert(more.drop_last() =~= seen);
            assert(more.last() == text@[i as int]);
        }
        match digit_of(text.get_char(i)) {
            None => {
                return None;
            },
            Some(digit) => {
                assert forall|j: int| 0 <= j < more.len() implies digit_value(
                    #[trigger] more[j],
                ) is Some by {
                    if j < i {
                        assert(more[j] == seen[j]);
                    }
                }
                value = 16 * value + digit;
            },
        }
        i = i + 1;
    }
    proof {
        assert(text@.subrange(0, count as int) =~= text@);
        lemma_hex_value_bound(text@);
        lemma_hex_pow_values();
    }
    Some(value)
}

/// Reads a number written as `0x` and one to ten hexadecimal digits.
pub fn parse_prefixed_hex(text: &str) -> (word: Option<u64>)
    ensures
        word == prefixed_hex(text@),
        word is Some ==> word->Some_0 < HASH_LIMIT,
{
    let count: usize = text.unicode_len();
    if count < 2 || count > LITERAL_LEN {
        return None;
    }
    if text.get_char(0) != '0' || text.get_char(1) != 'x' {
        return None;
    }
    parse_hex(text.substring_char(2, count))
}

/// Reads a raw literal: the value of a token of that form, nothing for any
/// other token.
pub fn parse_raw_literal(token: &str) -> (word: Option<u64>)
    ensures
        word is Some == is_raw_literal(token@),
        word is Some ==> word->Some_0 == literal_value(token@) && word->Some_0 < HASH_LIMIT,
{
    if token.unicode_len() != LITERAL_LEN {
        return None;
    }
    parse_prefixed_hex(token)
}

} // verus!
