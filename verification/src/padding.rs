//! Filling a sequence on the left up to a multiple of a width.
use crate::alphabet::zero_symbol;
use vstd::arithmetic::div_mod::{
    lemma_fundamental_div_mod, lemma_mod_bound, lemma_mod_multiples_vanish, lemma_mod_self_0,
    lemma_small_mod,
};
use vstd::arithmetic::mul::lemma_mul_is_distributive_add;
use vstd::prelude::*;

verus! {

/// How many items are missing for `len` items to be a multiple of `width`.
pub open spec fn pad_count(len: nat, width: nat) -> nat
    recommends
        width > 0,
{
    ((width - len % width) % (width as int)) as nat
}

/// `count` copies of `fill`.
pub open spec fn filler(count: nat, fill: u8) -> Seq<u8> {
    Seq::new(count, |i: int| fill)
}

/// `items` preceded by as many copies of `fill` as make its length a multiple
/// of `width`; `items` itself where its length already is one.
pub open spec fn left_fill(items: Seq<u8>, width: nat, fill: u8) -> Seq<u8>
    recommends
        width > 0,
{
    filler(pad_count(items.len(), width), fill) + items
}

/// `symbols` preceded by as many symbols `0` as make its length a multiple of
/// `width`.
pub open spec fn left_pad(symbols: Seq<u8>, width: nat) -> Seq<u8>
    recommends
        width > 0,
{
    left_fill(symbols, width, zero_symbol())
}

/// The missing items are fewer than `width`, they complete `len` to a
/// multiple of `width`, and none is missing where `len` already is one.
pub proof fn lemma_pad_count(len: nat, width: nat)
    requires
        width > 0,
    ensures
        pad_count(len, width) < width,
        (len + pad_count(len, width)) % width == 0,
        len % width == 0 <==> pad_count(len, width) == 0,
        len % width != 0 ==> pad_count(len, width) == width - len % width,
{
    let w = width as int;
    let r = (len % width) as int;
    lemma_mod_bound(len as int, w);
    if r == 0 {
        lemma_mod_self_0(w);
    } else {
        lemma_small_mod((w - r) as nat, width);
        lemma_fundamental_div_mod(len as int, w);
        lemma_mul_is_distributive_add(w, len as int / w, 1);
        lemma_mod_multiples_vanish(len as int / w + 1, 0, w);
        lemma_small_mod(0, width);
    }
}

/// A filled sequence has a multiple of `width` items and ends with the
/// given items; a sequence that already has a multiple of `width` items is
/// left as it is.
pub proof fn lemma_left_fill(items: Seq<u8>, width: nat, fill: u8)
    requires
        width > 0,
    ensures
        left_fill(items, width, fill).len() == items.len() + pad_count(items.len(), width),
        left_fill(items, width, fill).len() % width == 0,
        items.len() % width == 0 ==> left_fill(items, width, fill) == items,
{
    lemma_pad_count(items.len(), width);
    if items.len() % width == 0 {
        assert(left_fill(items, width, fill) =~= items);
    }
}

/// Puts symbols `0` in front of `input` until its length is a multiple of
/// `width`.
pub fn pad_custom(input: &mut Vec<u8>, width: usize)
    requires
        width > 0,
    ensures
        final(input)@ == left_pad(old(input)@, width as nat),
{
    let ghost before = input@;
    let padding = input.len() % width;
    if padding == 0 {
        proof {
            lemma_left_fill(before, width as nat, zero_symbol());
        }
        return ;
    }
    let count = width - padding;
    proof {
        lemma_pad_count(before.len(), width as nat);
    }
    let mut done: usize = 0;
    while done < count
        invariant
            done <= count,
            input@ == filler(done as nat, zero_symbol()) + before,
        decreases count - done,
    {
        input.insert(0, '0' as u8);
        done = done + 1;
    }
}

/// Puts symbols `0` in front of `input` until its length is a multiple of
/// eight.
pub fn pad(input: &mut Vec<u8>)
    ensures
        final(input)@ == left_pad(old(input)@, 8),
{
    pad_custom(input, 8)
}

} // verus!
