//! The base32h alphabet.
//!
//! Writing uses thirty-two canonical symbols: the ten decimal figures and the
//! upper-case letters without `I`, `O`, `S` and `U`. Reading is more lenient:
//! letters are accepted in either case, and each of the four letters left out
//! of the canonical set is read as the symbol it is most easily mistaken for
//! (`O` as `0`, `I` as `1`, `S` as `5`, `U` as `V`).
use vstd::prelude::*;

verus! {

/// The canonical symbol that is written for the digit `d`.
pub open spec fn symbol_of(d: u8) -> char
    recommends
        d < 32,
{
    match d {
        0 => '0',
        1 => '1',
        2 => '2',
        3 => '3',
        4 => '4',
        5 => '5',
        6 => '6',
        7 => '7',
        8 => '8',
        9 => '9',
        10 => 'A',
        11 => 'B',
        12 => 'C',
        13 => 'D',
        14 => 'E',
        15 => 'F',
        16 => 'G',
        17 => 'H',
        18 => 'J',
        19 => 'K',
        20 => 'L',
        21 => 'M',
        22 => 'N',
        23 => 'P',
        24 => 'Q',
        25 => 'R',
        26 => 'T',
        27 => 'V',
        28 => 'W',
        29 => 'X',
        30 => 'Y',
        _ => 'Z',
    }
}

/// The digit that a character stands for when read, or `None` for a character
/// outside the alphabet.
pub open spec fn digit_of(c: char) -> Option<u8> {
    match c {
        '0' | 'O' | 'o' => Some(0u8),
        '1' | 'I' | 'i' => Some(1u8),
        '2' => Some(2u8),
        '3' => Some(3u8),
        '4' => Some(4u8),
        '5' | 'S' | 's' => Some(5u8),
        '6' => Some(6u8),
        '7' => Some(7u8),
        '8' => Some(8u8),
        '9' => Some(9u8),
        'A' | 'a' => Some(10u8),
        'B' | 'b' => Some(11u8),
        'C' | 'c' => Some(12u8),
        'D' | 'd' => Some(13u8),
        'E' | 'e' => Some(14u8),
        'F' | 'f' => Some(15u8),
        'G' | 'g' => Some(16u8),
        'H' | 'h' => Some(17u8),
        'J' | 'j' => Some(18u8),
        'K' | 'k' => Some(19u8),
        'L' | 'l' => Some(20u8),
        'M' | 'm' => Some(21u8),
        'N' | 'n' => Some(22u8),
        'P' | 'p' => Some(23u8),
        'Q' | 'q' => Some(24u8),
        'R' | 'r' => Some(25u8),
        'T' | 't' => Some(26u8),
        'V' | 'v' | 'U' | 'u' => Some(27u8),
        'W' | 'w' => Some(28u8),
        'X' | 'x' => Some(29u8),
        'Y' | 'y' => Some(30u8),
        'Z' | 'z' => Some(31u8),
        _ => None,
    }
}

/// Whether a character belongs to the alphabet that is accepted when reading.
pub open spec fn is_symbol(c: char) -> bool {
    digit_of(c) is Some
}

/// Whether a byte is the code of a character of the alphabet.
pub open spec fn is_symbol_byte(b: u8) -> bool {
    is_symbol(b as char)
}

/// The digit that a byte of text stands for; zero for a byte outside the
/// alphabet.
pub open spec fn digit_value(b: u8) -> nat {
    match digit_of(b as char) {
        Some(d) => d as nat,
        None => 0,
    }
}

/// The padding symbol, `0`, which stands for the digit zero.
pub open spec fn zero_symbol() -> u8 {
    '0' as u8
}

/// Every digit is read back from its canonical symbol, so the thirty-two
/// canonical symbols are pairwise distinct and all belong to the alphabet.
pub proof fn lemma_symbol_reads_back(d: u8)
    requires
        d < 32,
    ensures
        digit_of(symbol_of(d)) == Some(d),
        (symbol_of(d) as u32) < 128,
        is_symbol_byte(symbol_of(d) as u8),
        digit_value(symbol_of(d) as u8) == d,
{
}

/// Different digits are written with different symbols.
pub proof fn lemma_symbols_differ(a: u8, b: u8)
    requires
        a < 32,
        b < 32,
        a != b,
    ensures
        symbol_of(a) != symbol_of(b),
{
    lemma_symbol_reads_back(a);
    lemma_symbol_reads_back(b);
}

/// Every character of the alphabet is an ASCII character and stands for a
/// digit below thirty-two.
pub proof fn lemma_symbol_range(c: char)
    requires
        is_symbol(c),
    ensures
        (c as u32) < 128,
        (c as u8) as char == c,
        digit_of(c)->Some_0 < 32,
        digit_value(c as u8) == digit_of(c)->Some_0,
{
}

/// Letters are read without regard to case.
pub proof fn lemma_case_is_ignored(upper: char, lower: char)
    requires
        'A' <= upper <= 'Z',
        lower as u32 == upper as u32 + 32,
    ensures
        digit_of(lower) == digit_of(upper),
{
}

/// The four groups of look-alike characters: every member of a group is read
/// as the same digit.
pub proof fn lemma_look_alikes()
    ensures
        digit_of('O') == digit_of('0') && digit_of('o') == digit_of('0'),
        digit_of('I') == digit_of('1') && digit_of('i') == digit_of('1'),
        digit_of('S') == digit_of('5') && digit_of('s') == digit_of('5'),
        digit_of('U') == digit_of('V') && digit_of('u') == digit_of('V') && digit_of('v')
            == digit_of('V'),
{
}

/// The digit that a character stands for, if it belongs to the alphabet.
pub fn char_to_digit(c: char) -> (digit: Option<u8>)
    ensures
        digit == digit_of(c),
{
    match c {
        '0' | 'O' | 'o' => Some(0),
        '1' | 'I' | 'i' => Some(1),
        '2' => Some(2),
        '3' => Some(3),
        '4' => Some(4),
        '5' | 'S' | 's' => Some(5),
        '6' => Some(6),
        '7' => Some(7),
        '8' => Some(8),
        '9' => Some(9),
        'A' | 'a' => Some(10),
        'B' | 'b' => Some(11),
        'C' | 'c' => Some(12),
        'D' | 'd' => Some(13),
        'E' | 'e' => Some(14),
        'F' | 'f' => Some(15),
        'G' | 'g' => Some(16),
        'H' | 'h' => Some(17),
        'J' | 'j' => Some(18),
        'K' | 'k' => Some(19),
        'L' | 'l' => Some(20),
        'M' | 'm' => Some(21),
        'N' | 'n' => Some(22),
        'P' | 'p' => Some(23),
        'Q' | 'q' => Some(24),
        'R' | 'r' => Some(25),
        'T' | 't' => Some(26),
        'V' | 'v' | 'U' | 'u' => Some(27),
        'W' | 'w' => Some(28),
        'X' | 'x' => Some(29),
        'Y' | 'y' => Some(30),
        'Z' | 'z' => Some(31),
        _ => None,
    }
}

/// The byte of the canonical symbol for a digit.
pub fn encode_digit(input: usize) -> (symbol: u8)
    requires
        input < 32,
    ensures
        symbol == symbol_of(input as u8) as u8,
        is_symbol_byte(symbol),
        digit_value(symbol) == input,
{
    let symbol: char = match input {
        0 => '0',
        1 => '1',
        2 => '2',
        3 => '3',
        4 => '4',
        5 => '5',
        6 => '6',
        7 => '7',
        8 => '8',
        9 => '9',
        10 => 'A',
        11 => 'B',
        12 => 'C',
        13 => 'D',
        14 => 'E',
        15 => 'F',
        16 => 'G',
        17 => 'H',
        18 => 'J',
        19 => 'K',
        20 => 'L',
        21 => 'M',
        22 => 'N',
        23 => 'P',
        24 => 'Q',
        25 => 'R',
        26 => 'T',
        27 => 'V',
        28 => 'W',
        29 => 'X',
        30 => 'Y',
        _ => 'Z',
    };
    symbol as u8
}

/// The digit that a byte of the alphabet stands for.
pub fn decode_digit(input: u8) -> (digit: u8)
    requires
        is_symbol_byte(input),
    ensures
        Some(digit) == digit_of(input as char),
        digit as nat == digit_value(input),
        digit < 32,
{
    match char_to_digit(input as char) {
        Some(digit) => digit,
        None => 0,
    }
}

/// Whether a character belongs to the alphabet.
pub fn is_decodeable(input: &char) -> (known: bool)
    ensures
        known == is_symbol(*input),
{
    char_to_digit(*input).is_some()
}

} // verus!
