//! base32h: numbers and bytes as text over an alphabet of thirty-two symbols
//! that are easy to tell apart, and back.
//!
//! Four operations make up the interface. [`encode_to_string`] writes an
//! unsigned 128-bit number as the shortest numeral, [`decode_string`] reads a
//! numeral back. [`encode_binary_to_string`] writes a byte sequence, five
//! bytes to eight symbols, and [`decode_string_to_binary`] reads such text
//! back into bytes.
//!
//! Reading never fails: a character outside the alphabet is left out as if it
//! were not there, letters are read in either case, and `O`, `I`, `S` and `U`
//! are read as `0`, `1`, `5` and `V`.
use crate::alphabet::zero_symbol;
use crate::binary::{
    binary_numeral, encode_binary, group_bytes, groups_bytes, lemma_all_symbols_pad,
    lemma_binary_numeral_symbols, lemma_groups_bytes_len, unit40_to_bytes,
};
use crate::numeric::{
    all_symbols, decode_bytes, digits_value, encode_bytes, lemma_numeral_reads_back,
    lemma_value_of_eight, numeral, word_range,
};
use crate::padding::{left_pad, lemma_left_fill, pad};
use crate::text::{as_text, filter_invalid, lemma_symbols_are_text, sanitize};
use vstd::prelude::*;
use vstd::slice::{slice_subrange, slice_to_vec};

pub mod alphabet;
pub mod binary;
pub mod leniency;
pub mod numeric;
pub mod padding;
pub mod round_trip;
pub mod text;

verus! {

/// The text that is written for a number: its numeral, which has no leading
/// zero; the numeral of zero is `0`.
pub open spec fn encoded_number(value: u128) -> Seq<char> {
    as_text(numeral(value as nat))
}

/// The number that is read from a text: the value of the symbols of the
/// alphabet in it, most significant first, reduced to 128 bits. A text without
/// any symbol of the alphabet reads as zero.
pub open spec fn decoded_number(text: Seq<char>) -> nat {
    digits_value(sanitize(text)) % word_range()
}

/// The text that is written for a byte sequence.
pub open spec fn encoded_binary(bytes: Seq<u8>) -> Seq<char> {
    as_text(binary_numeral(bytes))
}

/// The bytes that are read from a text: the symbols of the alphabet in it,
/// brought to a multiple of eight by symbols `0` in front, give five bytes for
/// every eight symbols.
pub open spec fn decoded_binary(text: Seq<char>) -> Seq<u8> {
    groups_bytes(left_pad(sanitize(text), 8))
}

/// Writes a number as base32h text.
///
/// The result is always `Ok`: the symbols of the alphabet are ASCII
/// characters.
pub fn encode_to_string(data: u128) -> (text: Result<String, std::string::FromUtf8Error>)
    ensures
        text matches Ok(s) && s@ == encoded_number(data),
{
    let symbols = encode_bytes(data);
    proof {
        lemma_numeral_reads_back(data as nat);
        lemma_symbols_are_text(symbols@);
    }
    String::from_utf8(symbols)
}

/// Writes a byte sequence as base32h text, eight symbols for every five
/// bytes.
///
/// The result is always `Ok`: the symbols of the alphabet are ASCII
/// characters.
pub fn encode_binary_to_string(data: &[u8]) -> (text: Result<
    String,
    std::string::FromUtf8Error,
>)
    ensures
        text matches Ok(s) && s@ == encoded_binary(data@) && s@.len() % 8 == 0,
{
    let symbols = encode_binary(data);
    proof {
        lemma_symbols_are_text(symbols@);
        lemma_binary_numeral_symbols(data@);
    }
    String::from_utf8(symbols)
}

/// Reads base32h text as bytes, five bytes for every eight symbols.
pub fn decode_string_to_binary(data: &str) -> (bytes: Vec<u8>)
    ensures
        bytes@ == decoded_binary(data@),
        bytes@.len() % 5 == 0,
{
    let mut string_bytes = filter_invalid(data);
    let mut bytes: Vec<u8> = Vec::with_capacity(string_bytes.len());
    proof {
        lemma_all_symbols_pad(string_bytes@, 8);
        lemma_left_fill(string_bytes@, 8, zero_symbol());
    }
    pad(&mut string_bytes);
    let mut start: usize = 0;
    assert(string_bytes@.take(0) =~= Seq::<u8>::empty());
    while start < string_bytes.len()
        invariant
            start <= string_bytes.len(),
            start % 8 == 0,
            string_bytes.len() % 8 == 0,
            all_symbols(string_bytes@),
            bytes@ == groups_bytes(string_bytes@.take(start as int)),
        decreases string_bytes.len() - start,
    {
        let chunk = slice_subrange(string_bytes.as_slice(), start, start + 8);
        proof {
            let upto = string_bytes@.take(start + 8);
            assert(upto.take(upto.len() - 8) =~= string_bytes@.take(start as int));
            assert(upto.skip(upto.len() - 8) =~= chunk@);
            lemma_value_of_eight(chunk@);
        }
        let val = decode_bytes(slice_to_vec(chunk));
        let result = unit40_to_bytes(val);
        let ghost before = bytes@;
        bytes.extend_from_slice(result.as_slice());
        assert(bytes@ =~= before + group_bytes(digits_value(chunk@)));
        start = start + 8;
    }
    proof {
        assert(string_bytes@.take(start as int) =~= string_bytes@);
        lemma_groups_bytes_len(string_bytes@);
    }
    bytes
}

/// Reads base32h text as a number.
///
/// A text of up to twenty-five symbols of the alphabet always stands for a
/// number of at most 128 bits. Of a larger number the low 128 bits are
/// returned.
pub fn decode_string(data: &str) -> (value: u128)
    ensures
        value as nat == decoded_number(data@),
        sanitize(data@).len() <= 25 ==> value as nat == digits_value(sanitize(data@)),
{
    decode_bytes(filter_invalid(data))
}

} // verus!
