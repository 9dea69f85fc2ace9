//! Text and the bytes of its symbols.
use crate::alphabet::{is_decodeable, is_symbol, is_symbol_byte, lemma_symbol_range};
use crate::numeric::all_symbols;
use vstd::prelude::*;
use vstd::utf8::{
    decode_utf8, encode_utf8, encode_utf8_decode_utf8, encode_utf8_valid_utf8, is_ascii_chars,
    is_ascii_chars_encode_utf8, valid_utf8,
};

verus! {

/// The error of `String::from_utf8`, which is handed on unread.
#[verifier::external_type_specification]
#[verifier::external_body]
pub struct ExFromUtf8Error(std::string::FromUtf8Error);

/// `String::from_utf8` of the standard library: it accepts exactly the byte
/// vectors that are well-formed UTF-8, and the string it returns holds the
/// characters that those bytes encode. Nothing is claimed about the error
/// value beyond its presence.
pub assume_specification[ String::from_utf8 ](vec: Vec<u8>) -> (text: Result<
    String,
    std::string::FromUtf8Error,
>)
    ensures
        match text {
            Ok(s) => valid_utf8(vec@) && s@ == decode_utf8(vec@),
            Err(_) => !valid_utf8(vec@),
        },
;

/// The characters of `text` that are symbols of the alphabet, in order. Every
/// other character is left out.
pub open spec fn symbols_only(text: Seq<char>) -> Seq<char> {
    text.filter(|c: char| is_symbol(c))
}

/// The symbols of the alphabet that occur in `text`, in order, as bytes. Every
/// other character is left out.
pub open spec fn sanitize(text: Seq<char>) -> Seq<u8> {
    symbols_only(text).map_values(|c: char| c as u8)
}

/// The characters whose codes are the given bytes.
pub open spec fn as_text(bytes: Seq<u8>) -> Seq<char> {
    bytes.map_values(|b: u8| b as char)
}

/// Sanitizing goes character by character: a symbol of the alphabet is kept,
/// any other character is dropped.
pub proof fn lemma_sanitize_push(text: Seq<char>, c: char)
    ensures
        symbols_only(text.push(c)) == if is_symbol(c) {
            symbols_only(text).push(c)
        } else {
            symbols_only(text)
        },
        sanitize(text.push(c)) == if is_symbol(c) {
            sanitize(text).push(c as u8)
        } else {
            sanitize(text)
        },
{
    reveal(Seq::filter);
    assert(text.push(c).drop_last() =~= text);
}

/// What sanitizing keeps are symbols of the alphabet.
pub proof fn lemma_sanitize_symbols(text: Seq<char>)
    ensures
        all_symbols(sanitize(text)),
        sanitize(text).len() <= text.len(),
    decreases text.len(),
{
    if text.len() > 0 {
        let front = text.drop_last();
        lemma_sanitize_symbols(front);
        lemma_sanitize_push(front, text.last());
        assert(front.push(text.last()) =~= text);
        if is_symbol(text.last()) {
            lemma_symbol_range(text.last());
        }
    }
}

/// Symbols of the alphabet pass through sanitizing unchanged.
pub proof fn lemma_sanitize_keeps_symbols(bytes: Seq<u8>)
    requires
        all_symbols(bytes),
    ensures
        sanitize(as_text(bytes)) == bytes,
    decreases bytes.len(),
{
    if bytes.len() == 0 {
        lemma_sanitize_symbols(as_text(bytes));
        assert(sanitize(as_text(bytes)) =~= bytes);
    } else {
        let front = bytes.drop_last();
        let last = bytes.last();
        lemma_sanitize_keeps_symbols(front);
        assert(as_text(bytes) =~= as_text(front).push(last as char));
        lemma_sanitize_push(as_text(front), last as char);
        assert(is_symbol_byte(last));
        assert(front.push(last) =~= bytes);
    }
}

/// Bytes that are symbols of the alphabet are well-formed UTF-8: each byte
/// encodes the character with that code.
pub proof fn lemma_symbols_are_text(bytes: Seq<u8>)
    requires
        all_symbols(bytes),
    ensures
        valid_utf8(bytes),
        decode_utf8(bytes) == as_text(bytes),
{
    let text = as_text(bytes);
    assert forall|i: int| 0 <= i < text.len() implies '\0' <= #[trigger] text[i] <= '\u{7f}' by {
        assert(is_symbol_byte(bytes[i]));
        lemma_symbol_range(text[i]);
    }
    assert(is_ascii_chars(text));
    is_ascii_chars_encode_utf8(text);
    assert(encode_utf8(text) =~= bytes);
    encode_utf8_valid_utf8(text);
    encode_utf8_decode_utf8(text);
}

/// The bytes of the symbols of the alphabet in `input`; every other character
/// is dropped.
pub fn filter_invalid(input: &str) -> (symbols: Vec<u8>)
    ensures
        symbols@ == sanitize(input@),
        all_symbols(symbols@),
{
    let mut symbols: Vec<u8> = Vec::new();
    assert(input@.take(0) =~= Seq::<char>::empty());
    for c in it: input.chars()
        invariant
            it.seq() == input@,
            symbols@ == sanitize(input@.take(it.index())),
    {
        proof {
            assert(c == input@[it.index()]);
            assert(input@.take(it.index() + 1) =~= input@.take(it.index()).push(c));
            lemma_sanitize_push(input@.take(it.index()), c);
        }
        if is_decodeable(&c) {
            symbols.push(c as u8);
        }
    }
    assert(input@.take(input@.len() as int) =~= input@);
    proof {
        lemma_sanitize_symbols(input@);
    }
    symbols
}

} // verus!
