//! The bit codec: the lowest bit of a channel sample, and a byte as eight
//! binary digits, most significant first.

use vstd::prelude::*;
use vstd::string::*;

verus! {

/// The lowest bit of a byte: 0 or 1.
pub open spec fn low_bit(byte: u8) -> u8 {
    byte % 2
}

/// `byte` with its lowest bit cleared where `bit` is 0 and set otherwise.
pub open spec fn with_low_bit(byte: u8, bit: u8) -> u8 {
    if bit == 0 {
        (byte - byte % 2) as u8
    } else {
        (byte - byte % 2 + 1) as u8
    }
}

/// The place value of the binary digit at `index`, counted from the most
/// significant of eight.
pub open spec fn place_value(index: int) -> int {
    if index == 0 {
        128
    } else if index == 1 {
        64
    } else if index == 2 {
        32
    } else if index == 3 {
        16
    } else if index == 4 {
        8
    } else if index == 5 {
        4
    } else if index == 6 {
        2
    } else {
        1
    }
}

/// The bit of `byte` at `index`, counted from the most significant: 0 or 1.
pub open spec fn bit_at(byte: u8, index: int) -> u8 {
    ((byte as int / place_value(index)) % 2) as u8
}

/// The byte whose bits, most significant first, are the eight given ones.
pub open spec fn byte_of_bits(bits: Seq<u8>) -> int {
    128 * bits[0] + 64 * bits[1] + 32 * bits[2] + 16 * bits[3] + 8 * bits[4] + 4 * bits[5] + 2
        * bits[6] + bits[7]
}

/// The character that writes a bit: `'0'` for 0 and `'1'` for anything else.
pub open spec fn digit_of(bit: u8) -> char {
    if bit == 0 {
        '0'
    } else {
        '1'
    }
}

/// The bit that a character writes: 1 for `'1'` and 0 for anything else.
pub open spec fn bit_of_digit(digit: char) -> u8 {
    if digit == '1' {
        1
    } else {
        0
    }
}

/// The eight binary digits of a byte, most significant first, zeros included.
pub open spec fn byte_digits(byte: u8) -> Seq<char> {
    Seq::new(8, |index: int| digit_of(bit_at(byte, index)))
}

/// Whether a text is exactly eight characters, each `'0'` or `'1'`.
pub open spec fn is_byte_digits(text: Seq<char>) -> bool {
    &&& text.len() == 8
    &&& forall|index: int| 0 <= index < 8 ==> text[index] == '0' || text[index] == '1'
}

/// The byte that a text of eight binary digits writes, and nothing for any
/// other text.
pub open spec fn digits_byte(text: Seq<char>) -> Option<u8> {
    if is_byte_digits(text) {
        Some(byte_of_bits(Seq::new(8, |index: int| bit_of_digit(text[index]))) as u8)
    } else {
        None
    }
}

/// The byte that `text` writes; the code of the character `'0'` where `text`
/// writes no byte.
pub open spec fn digits_byte_or_zero(text: Seq<char>) -> u8 {
    match digits_byte(text) {
        Some(byte) => byte,
        None => 48,
    }
}

/// The character whose code point is the byte that `text` writes; the
/// character `'0'` where `text` writes no byte.
pub open spec fn digits_char(text: Seq<char>) -> char {
    digits_byte_or_zero(text) as char
}

/// Reads the lowest bit of a channel sample.
pub fn unpack_bit(buffer_item: u8) -> (result: u8)
    ensures
        result == low_bit(buffer_item),
        result == 0 || result == 1,
{
    let last_digit: u8 = buffer_item & (1 << 0);
    assert(last_digit == buffer_item % 2) by (bit_vector)
        requires
            last_digit == buffer_item & (1u8 << 0u8),
    ;
    if last_digit != 0 {
        1
    } else {
        0
    }
}

/// Sets the lowest bit of a channel sample: to 0 where `bit` is 0, to 1 for
/// any other `bit`. The seven bits above it stay.
pub fn pack_bit(buffer_item: u8, bit: u8) -> (result: u8)
    ensures
        result == with_low_bit(buffer_item, bit),
        low_bit(result) == if bit == 0 { 0u8 } else { 1u8 },
        result / 2 == buffer_item / 2,
{
    if bit == 0 {
        let cleared: u8 = buffer_item & !(1 << 0);
        assert(cleared == buffer_item - buffer_item % 2) by (bit_vector)
            requires
                cleared == buffer_item & !(1u8 << 0u8),
        ;
        return cleared;
    }
    let set: u8 = buffer_item | (1 << 0);
    assert(set == buffer_item - buffer_item % 2 + 1) by (bit_vector)
        requires
            set == buffer_item | (1u8 << 0u8),
    ;
    set
}

/// The bit of `byte` at `index`, counted from the most significant.
pub fn bit_of_byte(byte: u8, index: usize) -> (result: u8)
    requires
        index < 8,
    ensures
        result == bit_at(byte, index as int),
        result == 0 || result == 1,
{
    let shifted: u8 = byte >> (7 - index as u8);
    assert(shifted as int == byte as int / place_value(index as int)) by {
        let distance: u8 = (7 - index) as u8;
        assert(distance == 0 ==> byte >> distance == byte / 1) by (bit_vector);
        assert(distance == 1 ==> byte >> distance == byte / 2) by (bit_vector);
        assert(distance == 2 ==> byte >> distance == byte / 4) by (bit_vector);
        assert(distance == 3 ==> byte >> distance == byte / 8) by (bit_vector);
        assert(distance == 4 ==> byte >> distance == byte / 16) by (bit_vector);
        assert(distance == 5 ==> byte >> distance == byte / 32) by (bit_vector);
        assert(distance == 6 ==> byte >> distance == byte / 64) by (bit_vector);
        assert(distance == 7 ==> byte >> distance == byte / 128) by (bit_vector);
    }
    unpack_bit(shifted)
}

/// Writes a byte as eight binary digits, most significant first.
pub fn char_to_binary_string(char_code: &u8) -> (result: String)
    ensures
        result@ == byte_digits(*char_code),
{
    let mut digits = String::new();
    let mut index: usize = 0;
    while index < 8
        invariant
            index <= 8,
            digits@.len() == index,
            forall|k: int| 0 <= k < index ==> digits@[k] == digit_of(bit_at(*char_code, k)),
        decreases 8 - index,
    {
        let bit = bit_of_byte(*char_code, index);
        proof {
            reveal_strlit("0");
            reveal_strlit("1");
        }
        if bit == 0 {
            digits.append("0");
        } else {
            digits.append("1");
        }
        index += 1;
    }
    assert(digits@ =~= byte_digits(*char_code));
    digits
}

/// Reads a text of exactly eight binary digits as a byte. Any other text,
/// shorter, longer or with another character in it, is no byte.
pub fn binary_string_to_byte(input: &str) -> (result: Option<u8>)
    ensures
        result == digits_byte(input@),
{
    if input.unicode_len() != 8 {
        return None;
    }
    let mut bits: Vec<u8> = Vec::new();
    let mut index: usize = 0;
    while index < 8
        invariant
            index <= 8,
            input@.len() == 8,
            bits@.len() == index,
            forall|k: int|
                0 <= k < index ==> (input@[k] == '0' || input@[k] == '1') && bits@[k]
                    == bit_of_digit(input@[k]),
        decreases 8 - index,
    {
        let digit = input.get_char(index);
        if digit == '0' {
            bits.push(0);
        } else if digit == '1' {
            bits.push(1);
        } else {
            return None;
        }
        index += 1;
    }
    assert(bits@ =~= Seq::new(8, |k: int| bit_of_digit(input@[k])));
    let value: u8 = 128 * bits[0] + 64 * bits[1] + 32 * bits[2] + 16 * bits[3] + 8 * bits[4] + 4
        * bits[5] + 2 * bits[6] + bits[7];
    Some(value)
}

/// Reads a text of eight binary digits as a byte. A text that writes no byte
/// is read as the code of the character `'0'`, so that reading never fails.
pub fn binary_string_to_byte_or_zero(input: String) -> (result: u8)
    ensures
        result == digits_byte_or_zero(input@),
{
    match binary_string_to_byte(input.as_str()) {
        Some(byte) => byte,
        None => 48,
    }
}

/// Reads a text of eight binary digits as the character with that code point.
/// A text that writes no byte is read as the character `'0'`, so that reading
/// never fails.
pub fn binary_string_to_char(input: String) -> (result: char)
    ensures
        result == digits_char(input@),
{
    binary_string_to_byte_or_zero(input) as char
}

/// Writing a byte as binary digits and reading the digits gives the byte back.
pub proof fn lemma_digits_round_trip(byte: u8)
    ensures
        is_byte_digits(byte_digits(byte)),
        digits_byte(byte_digits(byte)) == Some(byte),
{
    lemma_bits_make_byte(byte);
    assert(Seq::new(8, |index: int| bit_of_digit(byte_digits(byte)[index])) =~= Seq::new(
        8,
        |index: int| bit_at(byte, index),
    ));
}

/// A byte is the sum of its eight bits, each at its place value.
pub proof fn lemma_bits_make_byte(byte: u8)
    ensures
        byte_of_bits(Seq::new(8, |index: int| bit_at(byte, index))) == byte,
{
    assert(128 * ((byte / 128) % 2) + 64 * ((byte / 64) % 2) + 32 * ((byte / 32) % 2) + 16 * ((byte
        / 16) % 2) + 8 * ((byte / 8) % 2) + 4 * ((byte / 4) % 2) + 2 * ((byte / 2) % 2) + (byte / 1)
        % 2 == byte) by (bit_vector);
    assert(bit_at(byte, 0) == (byte / 128) % 2);
    assert(bit_at(byte, 1) == (byte / 64) % 2);
    assert(bit_at(byte, 2) == (byte / 32) % 2);
    assert(bit_at(byte, 3) == (byte / 16) % 2);
    assert(bit_at(byte, 4) == (byte / 8) % 2);
    assert(bit_at(byte, 5) == (byte / 4) % 2);
    assert(bit_at(byte, 6) == (byte / 2) % 2);
    assert(bit_at(byte, 7) == (byte / 1) % 2);
}

/// Setting the lowest bit twice to the same value is setting it once, and the
/// bit then reads as it was set.
pub proof fn lemma_low_bit_set(byte: u8, bit: u8)
    ensures
        with_low_bit(with_low_bit(byte, bit), bit) == with_low_bit(byte, bit),
        low_bit(with_low_bit(byte, bit)) == if bit == 0 { 0u8 } else { 1u8 },
        bit == 0 || bit == 1 ==> low_bit(with_low_bit(byte, bit)) == bit,
        low_bit(byte) == bit ==> with_low_bit(byte, bit) == byte,
{
}

} // verus!
