//! Bytes as base32h text, five bytes to eight symbols.
//!
//! A byte sequence is first brought to a multiple of five bytes by zero bytes
//! in front, then read as groups of five bytes. Each group is a number of
//! forty bits, the first byte being the most significant, and is written as
//! its numeral. The numerals are joined, and the whole is brought to a
//! multiple of eight symbols by symbols `0` in front.
//!
//! A numeral has no leading zeros, so a group whose first byte is below eight
//! is written with fewer than eight symbols. Only the padding in front makes
//! up for that, which puts the first group right and no other: see
//! [`keeps_groups`].
use crate::alphabet::{is_symbol_byte, zero_symbol};
use crate::numeric::{all_symbols, digits_value, encode_bytes, lemma_numeral_reads_back, numeral};
use crate::padding::{
    filler, left_fill, left_pad, lemma_left_fill, lemma_pad_count, pad, pad_count,
};
use vstd::arithmetic::div_mod::lemma_fundamental_div_mod_converse;
use vstd::prelude::*;
use vstd::slice::slice_subrange;

verus! {

/// The number that a group of five bytes stands for, the first byte being the
/// most significant.
pub open spec fn group_value(group: Seq<u8>) -> nat
    recommends
        group.len() >= 5,
{
    (group[0] * 4294967296 + group[1] * 16777216 + group[2] * 65536 + group[3] * 256
        + group[4]) as nat
}

/// The five bytes of a number of forty bits, most significant first.
pub open spec fn group_bytes(value: nat) -> Seq<u8>
    recommends
        value < 0x100_0000_0000,
{
    seq![
        (value / 4294967296 % 256) as u8,
        (value / 16777216 % 256) as u8,
        (value / 65536 % 256) as u8,
        (value / 256 % 256) as u8,
        (value % 256) as u8,
    ]
}

/// The numerals of the groups of five bytes of `bytes`, joined in order.
pub open spec fn groups_numeral(bytes: Seq<u8>) -> Seq<u8>
    recommends
        bytes.len() % 5 == 0,
    decreases bytes.len(),
{
    if bytes.len() < 5 {
        Seq::empty()
    } else {
        groups_numeral(bytes.take(bytes.len() - 5)) + numeral(
            group_value(bytes.skip(bytes.len() - 5)),
        )
    }
}

/// The symbols that are written for a byte sequence.
pub open spec fn binary_numeral(bytes: Seq<u8>) -> Seq<u8> {
    left_pad(groups_numeral(left_fill(bytes, 5, 0)), 8)
}

/// The bytes that the groups of eight symbols of `symbols` stand for, five
/// bytes for each group, joined in order.
pub open spec fn groups_bytes(symbols: Seq<u8>) -> Seq<u8>
    recommends
        symbols.len() % 8 == 0,
    decreases symbols.len(),
{
    if symbols.len() < 8 {
        Seq::empty()
    } else {
        groups_bytes(symbols.take(symbols.len() - 8)) + group_bytes(
            digits_value(symbols.skip(symbols.len() - 8)),
        )
    }
}

/// Whether every group of five bytes but the first begins with a byte of at
/// least eight, that is, stands for a number of more than thirty-five bits,
/// whose numeral has all eight symbols.
///
/// Byte sequences of a whole number of groups that are written and read back
/// unchanged are exactly those for which this holds.
pub open spec fn keeps_groups(bytes: Seq<u8>) -> bool {
    forall|i: int| 5 <= i < bytes.len() && i % 5 == 0 ==> #[trigger] bytes[i] >= 8
}

/// A number made of a high part times a base and a low part below the base
/// divides into those two parts.
proof fn lemma_split(high: int, low: int, base: int)
    requires
        0 <= low < base,
    ensures
        (high * base + low) / base == high,
        (high * base + low) % base == low,
{
    lemma_fundamental_div_mod_converse(high * base + low, base, high, low);
}

/// Five bytes stand for a number of forty bits, from which they can be had
/// back, and which has more than thirty-five bits where the first byte is at
/// least eight.
pub proof fn lemma_group_round_trip(group: Seq<u8>)
    requires
        group.len() == 5,
    ensures
        group_value(group) < 0x100_0000_0000,
        group_bytes(group_value(group)) == group,
        group[0] >= 8 <==> group_value(group) >= 0x8_0000_0000,
{
    let b0 = group[0] as int;
    let b1 = group[1] as int;
    let b2 = group[2] as int;
    let b3 = group[3] as int;
    let b4 = group[4] as int;
    let value = group_value(group) as int;
    lemma_split(b0 * 16777216 + b1 * 65536 + b2 * 256 + b3, b4, 256);
    lemma_split(b0 * 65536 + b1 * 256 + b2, b3, 256);
    lemma_split(b0 * 65536 + b1 * 256 + b2, b3 * 256 + b4, 65536);
    lemma_split(b0 * 256 + b1, b2, 256);
    lemma_split(b0 * 256 + b1, b2 * 65536 + b3 * 256 + b4, 16777216);
    lemma_split(b0, b1, 256);
    lemma_split(b0, b1 * 16777216 + b2 * 65536 + b3 * 256 + b4, 4294967296);
    lemma_split(0, b0, 256);
    assert(value % 256 == b4);
    assert(value / 256 % 256 == b3);
    assert(value / 65536 % 256 == b2);
    assert(value / 16777216 % 256 == b1);
    assert(value / 4294967296 % 256 == b0);
    assert(group_bytes(group_value(group)) =~= group);
}

/// A number of forty bits can be had back from its five bytes.
pub proof fn lemma_group_bytes_value(value: nat)
    requires
        value < 0x100_0000_0000,
    ensures
        group_bytes(value).len() == 5,
        group_value(group_bytes(value)) == value,
{
}

/// Every eight symbols give five bytes.
pub proof fn lemma_groups_bytes_len(symbols: Seq<u8>)
    requires
        symbols.len() % 8 == 0,
    ensures
        groups_bytes(symbols).len() * 8 == symbols.len() * 5,
    decreases symbols.len(),
{
    if symbols.len() >= 8 {
        lemma_groups_bytes_len(symbols.take(symbols.len() - 8));
    }
}

/// Joining keeps symbols of the alphabet.
pub proof fn lemma_all_symbols_join(front: Seq<u8>, back: Seq<u8>)
    requires
        all_symbols(front),
        all_symbols(back),
    ensures
        all_symbols(front + back),
{
    assert forall|i: int| 0 <= i < (front + back).len() implies is_symbol_byte(
        #[trigger] (front + back)[i],
    ) by {
        if i < front.len() {
            assert((front + back)[i] == front[i]);
        } else {
            assert((front + back)[i] == back[i - front.len()]);
        }
    }
}

/// Padding with symbols `0` keeps symbols of the alphabet.
pub proof fn lemma_all_symbols_pad(symbols: Seq<u8>, width: nat)
    requires
        all_symbols(symbols),
    ensures
        all_symbols(left_pad(symbols, width)),
{
    let zeros = filler(pad_count(symbols.len(), width), zero_symbol());
    assert(all_symbols(zeros));
    lemma_all_symbols_join(zeros, symbols);
}

/// The joined numerals of the groups are symbols of the alphabet.
pub proof fn lemma_groups_numeral_symbols(bytes: Seq<u8>)
    ensures
        all_symbols(groups_numeral(bytes)),
    decreases bytes.len(),
{
    if bytes.len() >= 5 {
        let front = bytes.take(bytes.len() - 5);
        lemma_groups_numeral_symbols(front);
        lemma_numeral_reads_back(group_value(bytes.skip(bytes.len() - 5)));
        lemma_all_symbols_join(
            groups_numeral(front),
            numeral(group_value(bytes.skip(bytes.len() - 5))),
        );
    }
}

/// What is written for a byte sequence consists of symbols of the alphabet
/// and is a whole number of groups of eight.
pub proof fn lemma_binary_numeral_symbols(bytes: Seq<u8>)
    ensures
        all_symbols(binary_numeral(bytes)),
        binary_numeral(bytes).len() % 8 == 0,
{
    let joined = groups_numeral(left_fill(bytes, 5, 0));
    lemma_groups_numeral_symbols(left_fill(bytes, 5, 0));
    lemma_all_symbols_pad(joined, 8);
    lemma_left_fill(joined, 8, zero_symbol());
}

/// The number that the first five bytes of `data` stand for.
pub fn bytes_to_uint40(data: &[u8]) -> (value: u128)
    requires
        data@.len() >= 5,
    ensures
        value as nat == group_value(data@),
        value < 0x100_0000_0000,
{
    let a: u128 = data[0] as u128 * 4294967296;
    let b: u128 = data[1] as u128 * 16777216;
    let c: u128 = data[2] as u128 * 65536;
    let d: u128 = data[3] as u128 * 256;
    let e: u128 = data[4] as u128;
    a + b + c + d + e
}

/// The five bytes of a number of forty bits, most significant first.
pub fn unit40_to_bytes(input: u128) -> (bytes: [u8; 5])
    requires
        input < 0x100_0000_0000,
    ensures
        bytes@ == group_bytes(input as nat),
{
    let a: u8 = (input / 4294967296 % 256) as u8;
    let b: u8 = (input / 16777216 % 256) as u8;
    let c: u8 = (input / 65536 % 256) as u8;
    let d: u8 = (input / 256 % 256) as u8;
    let e: u8 = (input % 256) as u8;
    let bytes: [u8; 5] = [a, b, c, d, e];
    assert(bytes@ =~= group_bytes(input as nat));
    bytes
}

/// The symbols that are written for a byte sequence.
pub fn encode_binary(input: &[u8]) -> (symbols: Vec<u8>)
    ensures
        symbols@ == binary_numeral(input@),
        all_symbols(symbols@),
{
    let overflow: usize = input.len() % 5;
    let padding_size: usize = if overflow != 0 {
        5 - overflow
    } else {
        0
    };
    let mut padded_input: Vec<u8> = vec![0; padding_size];
    padded_input.extend_from_slice(input);
    proof {
        lemma_pad_count(input@.len(), 5);
        lemma_left_fill(input@, 5, 0);
        assert(padded_input@ =~= left_fill(input@, 5, 0));
    }
    let mut result: Vec<u8> = Vec::with_capacity(10);
    let mut start: usize = 0;
    assert(padded_input@.take(0) =~= Seq::<u8>::empty());
    while start < padded_input.len()
        invariant
            start <= padded_input.len(),
            start % 5 == 0,
            padded_input.len() % 5 == 0,
            result@ == groups_numeral(padded_input@.take(start as int)),
        decreases padded_input.len() - start,
    {
        let chunk = slice_subrange(padded_input.as_slice(), start, start + 5);
        let uint40_byte = bytes_to_uint40(chunk);
        let mut encoded_bytes = encode_bytes(uint40_byte);
        proof {
            let upto = padded_input@.take(start + 5);
            assert(upto.take(upto.len() - 5) =~= padded_input@.take(start as int));
            assert(upto.skip(upto.len() - 5) =~= chunk@);
        }
        result.append(&mut encoded_bytes);
        start = start + 5;
    }
    assert(padded_input@.take(start as int) =~= padded_input@);
    pad(&mut result);
    proof {
        lemma_binary_numeral_symbols(input@);
    }
    result
}

} // verus!
