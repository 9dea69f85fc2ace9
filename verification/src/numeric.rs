//! Numbers as base32h numerals.
//!
//! A numeral is a sequence of symbols, most significant digit first, each
//! symbol standing for five bits. Writing produces the shortest numeral;
//! reading accepts any sequence of symbols of the alphabet.
use crate::alphabet::{
    decode_digit, digit_value, encode_digit, is_symbol_byte, lemma_symbol_reads_back, symbol_of,
    zero_symbol,
};
use crate::padding::filler;
use vstd::arithmetic::div_mod::{lemma_add_mod_noop, lemma_mul_mod_noop, lemma_small_mod};
use vstd::prelude::*;

verus! {

/// Thirty-two to the power `n`: the weight of the digit that has `n` digits to
/// its right.
pub open spec fn weight(n: nat) -> nat
    decreases n,
{
    if n == 0 {
        1
    } else {
        32 * weight((n - 1) as nat)
    }
}

/// The number of values that an unsigned 128-bit integer can take.
pub open spec fn word_range() -> nat {
    (u128::MAX + 1) as nat
}

/// The digits of `value` as canonical symbols, most significant first, with no
/// leading zero; empty for zero.
pub open spec fn digits_of(value: nat) -> Seq<u8>
    decreases value,
{
    if value == 0 {
        Seq::empty()
    } else {
        digits_of(value / 32).push(symbol_of((value % 32) as u8) as u8)
    }
}

/// The numeral that is written for `value`: its digits, or the single symbol
/// `0` for zero.
pub open spec fn numeral(value: nat) -> Seq<u8> {
    if value == 0 {
        seq![zero_symbol()]
    } else {
        digits_of(value)
    }
}

/// The number that a sequence of symbols stands for, most significant digit
/// first. The empty sequence stands for zero.
pub open spec fn digits_value(symbols: Seq<u8>) -> nat
    decreases symbols.len(),
{
    if symbols.len() == 0 {
        0
    } else {
        32 * digits_value(symbols.drop_last()) + digit_value(symbols.last())
    }
}

/// Whether every byte is a symbol of the alphabet.
pub open spec fn all_symbols(bytes: Seq<u8>) -> bool {
    forall|i: int| 0 <= i < bytes.len() ==> is_symbol_byte(#[trigger] bytes[i])
}

/// Whether two sequences of bytes have the same length and stand for the same
/// digit at every position.
pub open spec fn same_digits(a: Seq<u8>, b: Seq<u8>) -> bool {
    &&& a.len() == b.len()
    &&& forall|i: int| 0 <= i < a.len() ==> digit_value(#[trigger] a[i]) == digit_value(b[i])
}

/// Every weight is positive.
pub proof fn lemma_weight_positive(n: nat)
    ensures
        weight(n) > 0,
    decreases n,
{
    if n > 0 {
        lemma_weight_positive((n - 1) as nat);
    }
}

/// The weights do not decrease.
pub proof fn lemma_weight_grows(low: nat, high: nat)
    requires
        low <= high,
    ensures
        weight(low) <= weight(high),
    decreases high,
{
    if low < high {
        lemma_weight_grows(low, (high - 1) as nat);
    }
}

/// Appending a symbol shifts the value by one digit and adds the new digit.
pub proof fn lemma_value_push(symbols: Seq<u8>, last: u8)
    ensures
        digits_value(symbols.push(last)) == 32 * digits_value(symbols) + digit_value(last),
{
    assert(symbols.push(last).drop_last() =~= symbols);
}

/// A numeral of `n` symbols stands for a number below `weight(n)`.
pub proof fn lemma_value_bound(symbols: Seq<u8>)
    ensures
        digits_value(symbols) < weight(symbols.len()),
    decreases symbols.len(),
{
    if symbols.len() > 0 {
        lemma_value_bound(symbols.drop_last());
    }
}

/// Eight symbols stand for a number of forty bits.
pub proof fn lemma_value_of_eight(symbols: Seq<u8>)
    requires
        symbols.len() == 8,
    ensures
        digits_value(symbols) < 0x100_0000_0000,
{
    lemma_value_bound(symbols);
    assert(weight(8) == 0x100_0000_0000) by {
        reveal_with_fuel(weight, 9);
    }
}

/// Up to twenty-five symbols stand for a number of at most 125 bits, which
/// fits an unsigned 128-bit integer.
pub proof fn lemma_value_fits(symbols: Seq<u8>)
    requires
        symbols.len() <= 25,
    ensures
        digits_value(symbols) < word_range(),
{
    lemma_value_bound(symbols);
    lemma_weight_grows(symbols.len(), 25);
    assert(weight(25) == 0x2000_0000_0000_0000_0000_0000_0000_0000) by {
        reveal_with_fuel(weight, 26);
    }
}

/// Symbols `0` stand for zero.
pub proof fn lemma_zeros_value(count: nat)
    ensures
        digits_value(filler(count, zero_symbol())) == 0,
    decreases count,
{
    if count > 0 {
        lemma_zeros_value((count - 1) as nat);
        assert(filler(count, zero_symbol()).drop_last() =~= filler(
            (count - 1) as nat,
            zero_symbol(),
        ));
    }
}

/// Symbols `0` in front of a numeral do not change the number it stands for.
pub proof fn lemma_leading_zeros(count: nat, symbols: Seq<u8>)
    ensures
        digits_value(filler(count, zero_symbol()) + symbols) == digits_value(symbols),
    decreases symbols.len(),
{
    let zeros = filler(count, zero_symbol());
    if symbols.len() == 0 {
        assert(zeros + symbols =~= zeros);
        lemma_zeros_value(count);
    } else {
        assert((zeros + symbols).drop_last() =~= zeros + symbols.drop_last());
        lemma_leading_zeros(count, symbols.drop_last());
    }
}

/// A numeral cut short stands for at most a thirty-second of the number that
/// the whole numeral stands for.
pub proof fn lemma_prefix_value(symbols: Seq<u8>, kept: int)
    requires
        0 <= kept < symbols.len(),
    ensures
        32 * digits_value(symbols.take(kept)) <= digits_value(symbols),
    decreases symbols.len(),
{
    let front = symbols.drop_last();
    if kept == symbols.len() - 1 {
        assert(symbols.take(kept) =~= front);
    } else {
        assert(front.take(kept) =~= symbols.take(kept));
        lemma_prefix_value(front, kept);
    }
}

/// Sequences that stand for the same digits stand for the same number.
pub proof fn lemma_same_digits_value(a: Seq<u8>, b: Seq<u8>)
    requires
        same_digits(a, b),
    ensures
        digits_value(a) == digits_value(b),
    decreases a.len(),
{
    if a.len() > 0 {
        assert(digit_value(a[a.len() - 1]) == digit_value(b[a.len() - 1]));
        assert forall|i: int| 0 <= i < a.drop_last().len() implies digit_value(
            #[trigger] a.drop_last()[i],
        ) == digit_value(b.drop_last()[i]) by {
            assert(digit_value(a[i]) == digit_value(b[i]));
        }
        lemma_same_digits_value(a.drop_last(), b.drop_last());
    }
}

/// The digits of a number are symbols of the alphabet and stand for that
/// number.
pub proof fn lemma_digits_read_back(value: nat)
    ensures
        all_symbols(digits_of(value)),
        digits_value(digits_of(value)) == value,
        value > 0 ==> digits_of(value).len() > 0,
    decreases value,
{
    if value > 0 {
        let d = (value % 32) as u8;
        let front = digits_of(value / 32);
        lemma_digits_read_back(value / 32);
        lemma_symbol_reads_back(d);
        lemma_value_push(front, symbol_of(d) as u8);
    }
}

/// The numeral of a number is never empty, consists of symbols of the
/// alphabet, and stands for that number.
pub proof fn lemma_numeral_reads_back(value: nat)
    ensures
        numeral(value).len() > 0,
        all_symbols(numeral(value)),
        digits_value(numeral(value)) == value,
{
    if value == 0 {
        lemma_symbol_reads_back(0);
        lemma_value_push(Seq::empty(), zero_symbol());
        assert(numeral(value) =~= Seq::<u8>::empty().push(zero_symbol()));
    } else {
        lemma_digits_read_back(value);
    }
}

/// A number below `weight(k)` has at most `k` digits, and a number from
/// `weight(k - 1)` on has at least `k`.
pub proof fn lemma_digits_len(value: nat, k: nat)
    ensures
        value < weight(k) ==> digits_of(value).len() <= k,
        k > 0 && value >= weight((k - 1) as nat) ==> digits_of(value).len() >= k,
    decreases k,
{
    if k > 0 {
        lemma_weight_positive((k - 1) as nat);
        if value > 0 {
            lemma_digits_len(value / 32, (k - 1) as nat);
        }
    }
}

/// The numeral of a number of forty bits has from one to eight symbols, and
/// all eight from two to the power thirty-five on.
pub proof fn lemma_numeral_len(value: nat)
    requires
        value < 0x100_0000_0000,
    ensures
        1 <= numeral(value).len() <= 8,
        value >= 0x8_0000_0000 ==> numeral(value).len() == 8,
        value < 0x8_0000_0000 ==> numeral(value).len() < 8,
{
    assert(weight(8) == 0x100_0000_0000 && weight(7) == 0x8_0000_0000) by {
        reveal_with_fuel(weight, 9);
    }
    lemma_digits_len(value, 8);
    lemma_digits_len(value, 7);
    lemma_numeral_reads_back(value);
}

/// The numeral that is written for `data`.
pub fn encode_bytes(data: u128) -> (symbols: Vec<u8>)
    ensures
        symbols@ == numeral(data as nat),
{
    if data == 0 {
        let mut symbols: Vec<u8> = Vec::with_capacity(1);
        symbols.push('0' as u8);
        assert(symbols@ =~= numeral(0));
        return symbols;
    }
    let mut rest: u128 = data;
    let mut low_first: Vec<u8> = Vec::with_capacity(5);
    while rest > 0
        invariant
            digits_of(data as nat) == digits_of(rest as nat) + low_first@.reverse(),
        decreases rest,
    {
        let digit: usize = (rest % 32) as usize;
        let symbol = encode_digit(digit);
        proof {
            let front = digits_of((rest / 32) as nat);
            assert(digits_of(rest as nat) == front.push(symbol));
            assert(low_first@.push(symbol).reverse() =~= seq![symbol] + low_first@.reverse());
            assert(front.push(symbol) + low_first@.reverse() =~= front + (seq![symbol]
                + low_first@.reverse()));
        }
        low_first.push(symbol);
        rest = rest / 32;
    }
    assert(digits_of(data as nat) =~= low_first@.reverse());
    let count = low_first.len();
    let mut symbols: Vec<u8> = Vec::with_capacity(count);
    let mut left: usize = count;
    while left > 0
        invariant
            left <= count,
            count == low_first@.len(),
            symbols@.len() == count - left,
            forall|k: int| 0 <= k < count - left ==> symbols@[k] == low_first@[count - 1 - k],
        decreases left,
    {
        left = left - 1;
        symbols.push(low_first[left]);
    }
    assert(symbols@ =~= low_first@.reverse());
    symbols
}

/// The number that a sequence of symbols stands for, reduced to 128 bits.
///
/// A numeral of up to twenty-five symbols always fits; a longer one may stand
/// for a number of more than 128 bits, of which the low 128 bits are returned.
pub fn decode_bytes(input: Vec<u8>) -> (value: u128)
    requires
        all_symbols(input@),
    ensures
        value as nat == digits_value(input@) % word_range(),
        input@.len() <= 25 ==> value as nat == digits_value(input@),
{
    let mut value: u128 = 0;
    let mut i: usize = 0;
    proof {
        assert(input@.take(0) =~= Seq::<u8>::empty());
        lemma_small_mod(0, word_range());
    }
    while i < input.len()
        invariant
            i <= input.len(),
            all_symbols(input@),
            value as nat == digits_value(input@.take(i as int)) % word_range(),
        decreases input.len() - i,
    {
        let digit = decode_digit(input[i]) as u128;
        proof {
            let before = digits_value(input@.take(i as int));
            assert(input@.take(i + 1) =~= input@.take(i as int).push(input@[i as int]));
            lemma_value_push(input@.take(i as int), input@[i as int]);
            lemma_mul_mod_noop(32, before as int, word_range() as int);
            lemma_small_mod(32, word_range());
            lemma_add_mod_noop((32 * before) as int, digit as int, word_range() as int);
            lemma_small_mod(digit as nat, word_range());
        }
        value = value.wrapping_mul(32).wrapping_add(digit);
        i = i + 1;
    }
    assert(input@.take(i as int) =~= input@);
    proof {
        if input@.len() <= 25 {
            lemma_value_fits(input@);
            lemma_small_mod(digits_value(input@), word_range());
        }
    }
    value
}

} // verus!
