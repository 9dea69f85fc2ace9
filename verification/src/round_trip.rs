//! What is written can be read back.
use crate::alphabet::zero_symbol;
use crate::binary::{
    binary_numeral, group_bytes, group_value, groups_bytes, groups_numeral, keeps_groups,
    lemma_binary_numeral_symbols, lemma_group_bytes_value, lemma_group_round_trip,
    lemma_groups_bytes_len,
};
use crate::numeric::{
    digits_value, lemma_leading_zeros, lemma_numeral_len, lemma_numeral_reads_back,
    lemma_prefix_value, lemma_value_of_eight, numeral, word_range,
};
use crate::padding::{filler, left_fill, left_pad, lemma_left_fill, lemma_pad_count, pad_count};
use crate::text::lemma_sanitize_keeps_symbols;
use crate::{decoded_binary, decoded_number, encoded_binary, encoded_number};
use vstd::arithmetic::div_mod::lemma_small_mod;
use vstd::prelude::*;

verus! {

/// Reading goes group by group: eight more symbols give five more bytes.
pub proof fn lemma_groups_bytes_step(symbols: Seq<u8>, tail: Seq<u8>)
    requires
        tail.len() == 8,
    ensures
        groups_bytes(symbols + tail) == groups_bytes(symbols) + group_bytes(digits_value(tail)),
{
    let whole = symbols + tail;
    assert(whole.take(whole.len() - 8) =~= symbols);
    assert(whole.skip(whole.len() - 8) =~= tail);
}

/// Eight symbols at the end do not change the padding in front.
pub proof fn lemma_left_pad_step(symbols: Seq<u8>, tail: Seq<u8>)
    requires
        tail.len() == 8,
    ensures
        left_pad(symbols + tail, 8) == left_pad(symbols, 8) + tail,
{
    assert(pad_count((symbols + tail).len(), 8) == pad_count(symbols.len(), 8));
    assert(left_pad(symbols + tail, 8) =~= left_pad(symbols, 8) + tail);
}

/// What is written for the groups begins with the numeral of the first
/// group.
pub proof fn lemma_groups_numeral_front(bytes: Seq<u8>)
    requires
        bytes.len() >= 5,
        bytes.len() % 5 == 0,
    ensures
        groups_numeral(bytes) == numeral(group_value(bytes.take(5))) + groups_numeral(
            bytes.skip(5),
        ),
    decreases bytes.len(),
{
    let cut = bytes.len() - 5;
    let front = bytes.take(cut);
    let last = numeral(group_value(bytes.skip(cut)));
    if bytes.len() == 5 {
        assert(bytes.take(5) =~= bytes.skip(cut));
        assert(groups_numeral(front) =~= Seq::<u8>::empty());
        assert(groups_numeral(bytes.skip(5)) =~= Seq::<u8>::empty());
        assert(groups_numeral(bytes) =~= numeral(group_value(bytes.take(5))) + groups_numeral(
            bytes.skip(5),
        ));
    } else {
        let first = numeral(group_value(bytes.take(5)));
        let rest = bytes.skip(5);
        lemma_groups_numeral_front(front);
        assert(front.take(5) =~= bytes.take(5));
        assert(front.skip(5) =~= rest.take(rest.len() - 5));
        assert(rest.skip(rest.len() - 5) =~= bytes.skip(cut));
        assert(groups_numeral(rest) == groups_numeral(front.skip(5)) + last);
        assert(groups_numeral(bytes) =~= first + groups_numeral(rest));
    }
}

/// What is read from groups of eight symbols begins with the five bytes of
/// the first group.
pub proof fn lemma_groups_bytes_front(symbols: Seq<u8>)
    requires
        symbols.len() >= 8,
        symbols.len() % 8 == 0,
    ensures
        groups_bytes(symbols).len() >= 5,
        groups_bytes(symbols).take(5) == group_bytes(digits_value(symbols.take(8))),
    decreases symbols.len(),
{
    let cut = symbols.len() - 8;
    let front = symbols.take(cut);
    if symbols.len() == 8 {
        assert(symbols.skip(cut) =~= symbols.take(8));
        assert(groups_bytes(front) =~= Seq::<u8>::empty());
        assert(groups_bytes(symbols).take(5) =~= group_bytes(digits_value(symbols.take(8))));
    } else {
        lemma_groups_bytes_front(front);
        assert(front.take(8) =~= symbols.take(8));
        assert(groups_bytes(symbols).take(5) =~= groups_bytes(front).take(5));
    }
}

/// No group is written with more than eight symbols.
pub proof fn lemma_groups_numeral_len(bytes: Seq<u8>)
    requires
        bytes.len() % 5 == 0,
    ensures
        5 * groups_numeral(bytes).len() <= 8 * bytes.len(),
    decreases bytes.len(),
{
    if bytes.len() >= 5 {
        let group = bytes.skip(bytes.len() - 5);
        lemma_groups_numeral_len(bytes.take(bytes.len() - 5));
        lemma_group_round_trip(group);
        lemma_numeral_len(group_value(group));
    }
}

/// Where a group begins with a byte below eight, fewer than eight symbols for
/// each group are written.
pub proof fn lemma_groups_numeral_short(bytes: Seq<u8>, at: int)
    requires
        bytes.len() % 5 == 0,
        0 <= at < bytes.len(),
        at % 5 == 0,
        bytes[at] < 8,
    ensures
        5 * groups_numeral(bytes).len() + 5 <= 8 * bytes.len(),
    decreases bytes.len(),
{
    let cut = bytes.len() - 5;
    let front = bytes.take(cut);
    let group = bytes.skip(cut);
    lemma_group_round_trip(group);
    lemma_numeral_len(group_value(group));
    if at == cut {
        lemma_groups_numeral_len(front);
    } else {
        assert(front[at] == bytes[at]);
        lemma_groups_numeral_short(front, at);
    }
}

/// A whole number of groups that is read back from what is written for it
/// has no group after the first that begins with a byte below eight.
pub proof fn lemma_round_trip_keeps_groups(bytes: Seq<u8>)
    requires
        bytes.len() % 5 == 0,
        groups_bytes(left_pad(groups_numeral(bytes), 8)) == bytes,
    ensures
        keeps_groups(bytes),
{
    assert forall|i: int| 5 <= i < bytes.len() && i % 5 == 0 implies #[trigger] bytes[i] >= 8 by {
        if bytes[i] < 8 {
            let written = groups_numeral(bytes);
            let padded = left_pad(written, 8);
            let zeros = filler(pad_count(written.len(), 8), zero_symbol());
            let first = numeral(group_value(bytes.take(5)));
            // The padded text has eight symbols for each group of five bytes.
            lemma_left_fill(written, 8, zero_symbol());
            lemma_pad_count(written.len(), 8);
            lemma_groups_bytes_len(padded);
            // The groups after the first are written with too few symbols.
            lemma_groups_numeral_front(bytes);
            assert(bytes.skip(5)[i - 5] == bytes[i]);
            lemma_groups_numeral_short(bytes.skip(5), i - 5);
            // So the first eight symbols hold only a part of the first numeral.
            lemma_group_round_trip(bytes.take(5));
            lemma_numeral_len(group_value(bytes.take(5)));
            lemma_numeral_reads_back(group_value(bytes.take(5)));
            let kept = 8 - zeros.len();
            assert(0 < kept < first.len());
            assert(padded.take(8) =~= zeros + first.take(kept));
            lemma_leading_zeros(zeros.len(), first.take(kept));
            lemma_prefix_value(first, kept);
            // Yet they are read as the first group.
            lemma_groups_bytes_front(padded);
            lemma_value_of_eight(padded.take(8));
            lemma_group_bytes_value(digits_value(padded.take(8)));
            // Only zero is a thirty-second of itself, and the numeral of zero
            // is too short to leave fewer than eight symbols `0` in front.
            assert(group_value(bytes.take(5)) == 0);
        }
    }
}

/// A whole number of groups, each but the first beginning with a byte of at
/// least eight, is read back from what is written for it.
pub proof fn lemma_groups_round_trip(bytes: Seq<u8>)
    requires
        bytes.len() % 5 == 0,
        keeps_groups(bytes),
    ensures
        groups_bytes(left_pad(groups_numeral(bytes), 8)) == bytes,
    decreases bytes.len(),
{
    if bytes.len() == 0 {
        lemma_left_fill(groups_numeral(bytes), 8, zero_symbol());
        assert(groups_bytes(left_pad(groups_numeral(bytes), 8)) =~= bytes);
    } else {
        let front = bytes.take(bytes.len() - 5);
        let group = bytes.skip(bytes.len() - 5);
        let value = group_value(group);
        assert(front + group =~= bytes);
        lemma_group_round_trip(group);
        lemma_numeral_len(value);
        lemma_numeral_reads_back(value);
        if bytes.len() == 5 {
            assert(groups_numeral(front) =~= Seq::<u8>::empty());
            assert(groups_numeral(bytes) =~= numeral(value));
            let padded = left_pad(numeral(value), 8);
            lemma_left_fill(numeral(value), 8, zero_symbol());
            lemma_pad_count(numeral(value).len(), 8);
            assert(padded.len() == 8);
            lemma_leading_zeros(pad_count(numeral(value).len(), 8), numeral(value));
            lemma_groups_bytes_step(Seq::empty(), padded);
            assert(Seq::<u8>::empty() + padded =~= padded);
            assert(groups_bytes(Seq::<u8>::empty()) =~= Seq::<u8>::empty());
            assert(groups_bytes(padded) =~= group);
            assert(group =~= bytes);
        } else {
            assert(group[0] == bytes[bytes.len() - 5]);
            assert(keeps_groups(front)) by {
                assert forall|i: int| 5 <= i < front.len() && i % 5 == 0 implies #[trigger] front[i]
                    >= 8 by {
                    assert(front[i] == bytes[i]);
                }
            }
            lemma_groups_round_trip(front);
            let before = left_pad(groups_numeral(front), 8);
            lemma_left_fill(groups_numeral(front), 8, zero_symbol());
            lemma_left_pad_step(groups_numeral(front), numeral(value));
            lemma_groups_bytes_step(before, numeral(value));
        }
    }
}

/// Reading the text that is written for a number gives that number.
pub proof fn theorem_number_round_trip(value: u128)
    ensures
        decoded_number(encoded_number(value)) == value,
{
    lemma_numeral_reads_back(value as nat);
    lemma_sanitize_keeps_symbols(numeral(value as nat));
    lemma_small_mod(value as nat, word_range());
}

/// Reading the text that is written for a byte sequence gives that sequence
/// with zero bytes in front up to a multiple of five bytes, provided that
/// every group of five bytes after the first begins with a byte of at least
/// eight.
pub proof fn theorem_binary_round_trip(bytes: Seq<u8>)
    requires
        keeps_groups(left_fill(bytes, 5, 0)),
    ensures
        decoded_binary(encoded_binary(bytes)) == left_fill(bytes, 5, 0),
{
    let written = binary_numeral(bytes);
    lemma_binary_numeral_symbols(bytes);
    lemma_sanitize_keeps_symbols(written);
    lemma_left_fill(written, 8, zero_symbol());
    lemma_left_fill(bytes, 5, 0);
    lemma_groups_round_trip(left_fill(bytes, 5, 0));
}

/// The condition of [`theorem_binary_round_trip`] leaves out no byte sequence
/// that is read back: where a group of five bytes after the first begins with
/// a byte below eight, reading the text that is written gives other bytes.
pub proof fn theorem_binary_round_trip_needs_groups(bytes: Seq<u8>)
    requires
        decoded_binary(encoded_binary(bytes)) == left_fill(bytes, 5, 0),
    ensures
        keeps_groups(left_fill(bytes, 5, 0)),
{
    let written = binary_numeral(bytes);
    lemma_binary_numeral_symbols(bytes);
    lemma_sanitize_keeps_symbols(written);
    lemma_left_fill(written, 8, zero_symbol());
    lemma_left_fill(bytes, 5, 0);
    lemma_round_trip_keeps_groups(left_fill(bytes, 5, 0));
}

/// Reading the text that is written for a whole number of groups of five
/// bytes gives the same bytes, provided that every group after the first
/// begins with a byte of at least eight.
pub proof fn theorem_binary_round_trip_aligned(bytes: Seq<u8>)
    requires
        bytes.len() % 5 == 0,
        keeps_groups(bytes),
    ensures
        decoded_binary(encoded_binary(bytes)) == bytes,
{
    lemma_left_fill(bytes, 5, 0);
    theorem_binary_round_trip(bytes);
}

} // verus!
