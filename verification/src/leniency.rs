//! Reading is lenient: characters outside the alphabet are passed over, and
//! characters that stand for the same digit are read alike.
use crate::alphabet::{digit_of, digit_value, is_symbol, lemma_symbol_range, zero_symbol};
use crate::binary::groups_bytes;
use crate::numeric::{lemma_same_digits_value, same_digits, word_range};
use crate::padding::{filler, left_pad, lemma_left_fill, pad_count};
use crate::text::{lemma_sanitize_push, sanitize, symbols_only};
use crate::{decoded_binary, decoded_number};
use vstd::arithmetic::div_mod::lemma_small_mod;
use vstd::prelude::*;

verus! {

/// Whether two texts have the same length and, at every position, characters
/// that stand for the same digit or that are both outside the alphabet.
pub open spec fn read_alike(a: Seq<char>, b: Seq<char>) -> bool {
    &&& a.len() == b.len()
    &&& forall|i: int| 0 <= i < a.len() ==> digit_of(#[trigger] a[i]) == digit_of(b[i])
}

/// Leaving out the characters outside the alphabet a second time changes
/// nothing.
pub proof fn lemma_sanitize_twice(text: Seq<char>)
    ensures
        symbols_only(symbols_only(text)) == symbols_only(text),
        sanitize(symbols_only(text)) == sanitize(text),
    decreases text.len(),
{
    if text.len() == 0 {
        assert(symbols_only(text) =~= text) by {
            reveal(Seq::filter);
        }
    } else {
        let front = text.drop_last();
        let c = text.last();
        assert(front.push(c) =~= text);
        lemma_sanitize_twice(front);
        lemma_sanitize_push(front, c);
        if is_symbol(c) {
            lemma_sanitize_push(symbols_only(front), c);
        }
    }
}

/// A text without any symbol of the alphabet is sanitized to nothing.
pub proof fn lemma_sanitize_foreign(text: Seq<char>)
    requires
        forall|i: int| 0 <= i < text.len() ==> !is_symbol(#[trigger] text[i]),
    ensures
        sanitize(text) == Seq::<u8>::empty(),
    decreases text.len(),
{
    if text.len() == 0 {
        assert(sanitize(text) =~= Seq::<u8>::empty()) by {
            reveal(Seq::filter);
        }
    } else {
        let front = text.drop_last();
        assert(front.push(text.last()) =~= text);
        assert forall|i: int| 0 <= i < front.len() implies !is_symbol(#[trigger] front[i]) by {
            assert(front[i] == text[i]);
        }
        lemma_sanitize_foreign(front);
        lemma_sanitize_push(front, text.last());
    }
}

/// Texts that are read alike are sanitized to bytes that stand for the same
/// digits.
pub proof fn lemma_sanitize_alike(a: Seq<char>, b: Seq<char>)
    requires
        read_alike(a, b),
    ensures
        same_digits(sanitize(a), sanitize(b)),
    decreases a.len(),
{
    if a.len() == 0 {
        assert(sanitize(a) =~= sanitize(b)) by {
            assert(a =~= b);
        }
    } else {
        let front_a = a.drop_last();
        let front_b = b.drop_last();
        assert(front_a.push(a.last()) =~= a);
        assert(front_b.push(b.last()) =~= b);
        assert(digit_of(a[a.len() - 1]) == digit_of(b[a.len() - 1]));
        assert forall|i: int| 0 <= i < front_a.len() implies digit_of(#[trigger] front_a[i])
            == digit_of(front_b[i]) by {
            assert(digit_of(a[i]) == digit_of(b[i]));
        }
        lemma_sanitize_alike(front_a, front_b);
        lemma_sanitize_push(front_a, a.last());
        lemma_sanitize_push(front_b, b.last());
        if is_symbol(a.last()) {
            lemma_symbol_range(a.last());
            lemma_symbol_range(b.last());
        }
    }
}

/// Padding keeps bytes that stand for the same digits alike.
pub proof fn lemma_same_digits_pad(a: Seq<u8>, b: Seq<u8>)
    requires
        same_digits(a, b),
    ensures
        same_digits(left_pad(a, 8), left_pad(b, 8)),
{
    let zeros = filler(pad_count(a.len(), 8), zero_symbol());
    assert forall|i: int| 0 <= i < left_pad(a, 8).len() implies digit_value(
        #[trigger] left_pad(a, 8)[i],
    ) == digit_value(left_pad(b, 8)[i]) by {
        if i >= zeros.len() {
            assert(digit_value(a[i - zeros.len()]) == digit_value(b[i - zeros.len()]));
        }
    }
}

/// Symbols that stand for the same digits are read as the same bytes.
pub proof fn lemma_same_digits_groups(a: Seq<u8>, b: Seq<u8>)
    requires
        same_digits(a, b),
    ensures
        groups_bytes(a) == groups_bytes(b),
    decreases a.len(),
{
    if a.len() >= 8 {
        let cut = a.len() - 8;
        assert(same_digits(a.take(cut), b.take(cut))) by {
            assert forall|i: int| 0 <= i < cut implies digit_value(#[trigger] a.take(cut)[i])
                == digit_value(b.take(cut)[i]) by {
                assert(digit_value(a[i]) == digit_value(b[i]));
            }
        }
        assert(same_digits(a.skip(cut), b.skip(cut))) by {
            assert forall|i: int| 0 <= i < 8 implies digit_value(#[trigger] a.skip(cut)[i])
                == digit_value(b.skip(cut)[i]) by {
                assert(digit_value(a[cut + i]) == digit_value(b[cut + i]));
            }
        }
        lemma_same_digits_groups(a.take(cut), b.take(cut));
        lemma_same_digits_value(a.skip(cut), b.skip(cut));
    }
}

/// Characters outside the alphabet are passed over: a text reads as the text
/// that is left when they are taken out.
pub proof fn theorem_foreign_characters_are_ignored(text: Seq<char>)
    ensures
        decoded_number(text) == decoded_number(symbols_only(text)),
        decoded_binary(text) == decoded_binary(symbols_only(text)),
{
    lemma_sanitize_twice(text);
}

/// A text without any symbol of the alphabet reads as the number zero and as
/// no bytes at all.
pub proof fn theorem_foreign_text_reads_as_nothing(text: Seq<char>)
    requires
        forall|i: int| 0 <= i < text.len() ==> !is_symbol(#[trigger] text[i]),
    ensures
        decoded_number(text) == 0,
        decoded_binary(text) == Seq::<u8>::empty(),
{
    lemma_sanitize_foreign(text);
    lemma_small_mod(0, word_range());
    lemma_left_fill(Seq::<u8>::empty(), 8, zero_symbol());
}

/// Texts that have, position by position, characters standing for the same
/// digit read as the same number and as the same bytes.
pub proof fn theorem_aliases_read_alike(a: Seq<char>, b: Seq<char>)
    requires
        read_alike(a, b),
    ensures
        decoded_number(a) == decoded_number(b),
        decoded_binary(a) == decoded_binary(b),
{
    lemma_sanitize_alike(a, b);
    lemma_same_digits_value(sanitize(a), sanitize(b));
    lemma_same_digits_pad(sanitize(a), sanitize(b));
    lemma_same_digits_groups(left_pad(sanitize(a), 8), left_pad(sanitize(b), 8));
}

/// Putting, at one position of a text, another character that stands for the
/// same digit changes neither the number nor the bytes that the text reads
/// as.
pub proof fn theorem_alias_in_place(text: Seq<char>, position: int, alias: char)
    requires
        0 <= position < text.len(),
        digit_of(alias) == digit_of(text[position]),
    ensures
        decoded_number(text.update(position, alias)) == decoded_number(text),
        decoded_binary(text.update(position, alias)) == decoded_binary(text),
{
    theorem_aliases_read_alike(text.update(position, alias), text);
}

} // verus!
