//! Properties of the hash that hold for every input.

use crate::base83::{base83, in_alphabet, lemma_base83_shape, lemma_in_alphabet_concat};
use crate::encoder::{
    ac_fields, ac_value, components_valid, hash, input_check, quantised_valid, size_flag_value,
    EncodingError,
};
use vstd::prelude::*;

verus! {

/// The AC fields are two symbols per coefficient, and field `i` is the
/// numeral of coefficient `i`.
pub proof fn lemma_ac_fields(ac: Seq<[u8; 3]>)
    ensures
        ac_fields(ac).len() == 2 * ac.len(),
        in_alphabet(ac_fields(ac)),
        forall|i: int|
            0 <= i < ac.len() ==> #[trigger] ac_fields(ac).subrange(2 * i, 2 * i + 2) == base83(
                ac_value(ac[i]@) as nat,
                2,
            ),
    decreases ac.len(),
{
    if ac.len() > 0 {
        let rest = ac.drop_last();
        let last = base83(ac_value(ac.last()@) as nat, 2);
        lemma_ac_fields(rest);
        lemma_base83_shape(ac_value(ac.last()@) as nat, 2);
        lemma_in_alphabet_concat(ac_fields(rest), last);
        let all = ac_fields(ac);
        assert(all == ac_fields(rest) + last);
        assert forall|i: int| 0 <= i < ac.len() implies #[trigger] all.subrange(2 * i, 2 * i + 2)
            == base83(ac_value(ac[i]@) as nat, 2) by {
            if i < rest.len() {
                assert(rest[i] == ac[i]);
                assert(all.subrange(2 * i, 2 * i + 2) =~= ac_fields(rest).subrange(2 * i, 2 * i + 2));
            } else {
                assert(all.subrange(2 * i, 2 * i + 2) =~= last);
            }
        }
    }
}

/// For every valid grid and every set of quantised coefficients that fits it,
/// the hash has `6 + 2 * (cx * cy - 1)` symbols, all from the alphabet.
pub proof fn lemma_hash_shape(cx: int, cy: int, quantised_max: nat, dc: Seq<u8>, ac: Seq<[u8; 3]>)
    requires
        components_valid(cx, cy),
        quantised_valid(cx, cy, quantised_max, ac),
    ensures
        hash(cx, cy, quantised_max, dc, ac).len() == 6 + 2 * (cx * cy - 1),
        in_alphabet(hash(cx, cy, quantised_max, dc, ac)),
{
    let size = base83(((cx - 1) + (cy - 1) * 9) as nat, 1);
    let flag = base83(if ac.len() == 0 { 0 } else { quantised_max }, 1);
    let colour = base83(crate::encoder::dc_value(dc) as nat, 4);
    lemma_base83_shape(((cx - 1) + (cy - 1) * 9) as nat, 1);
    lemma_base83_shape(if ac.len() == 0 { 0 } else { quantised_max }, 1);
    lemma_base83_shape(crate::encoder::dc_value(dc) as nat, 4);
    lemma_ac_fields(ac);
    lemma_in_alphabet_concat(size, flag);
    lemma_in_alphabet_concat(size + flag, colour);
    lemma_in_alphabet_concat(size + flag + colour, ac_fields(ac));
}

/// The size flag gives the grid back: `cx - 1` is the flag mod 9 and
/// `cy - 1` the flag divided by 9.
pub proof fn lemma_size_flag_inverts(cx: int, cy: int)
    requires
        components_valid(cx, cy),
    ensures
        0 <= size_flag_value(cx, cy) <= 80,
        size_flag_value(cx, cy) % 9 == cx - 1,
        size_flag_value(cx, cy) / 9 == cy - 1,
{
    vstd::arithmetic::div_mod::lemma_fundamental_div_mod_converse(
        size_flag_value(cx, cy),
        9,
        cy - 1,
        cx - 1,
    );
}

/// The hash is a function of the grid and the quantised coefficients alone:
/// equal inputs give equal strings.
pub proof fn lemma_hash_deterministic(
    cx: int,
    cy: int,
    quantised_max: nat,
    dc: Seq<u8>,
    ac: Seq<[u8; 3]>,
    cx2: int,
    cy2: int,
    quantised_max2: nat,
    dc2: Seq<u8>,
    ac2: Seq<[u8; 3]>,
)
    requires
        cx == cx2,
        cy == cy2,
        quantised_max == quantised_max2,
        dc == dc2,
        ac == ac2,
    ensures
        hash(cx, cy, quantised_max, dc, ac) == hash(cx2, cy2, quantised_max2, dc2, ac2),
{
}

/// A grid dimension of 0 or 10 is rejected as an invalid number of
/// components, whatever the buffer.
pub proof fn lemma_components_out_of_range(len: int, cx: int, cy: int, width: int, height: int)
    requires
        cx == 0 || cx == 10 || cy == 0 || cy == 10,
    ensures
        input_check(len, cx, cy, width, height) == Err::<(), EncodingError>(
            EncodingError::ComponentsNumberInvalid,
        ),
{
}

/// On a valid grid, a buffer one byte short of `width * height * 4` is
/// rejected as a size mismatch.
pub proof fn lemma_short_buffer(cx: int, cy: int, width: nat, height: nat)
    requires
        components_valid(cx, cy),
        width * height >= 1,
    ensures
        input_check(width * height * 4 - 1, cx, cy, width as int, height as int) == Err::<
            (),
            EncodingError,
        >(EncodingError::BytesPerPixelMismatch),
{
}

/// When every AC coefficient quantises to the middle index 9 on all three
/// channels, which is where a zero coefficient lands, each AC field of the
/// hash is the numeral of `9 * 361 + 9 * 19 + 9 = 3429`, whatever the number of
/// coefficients.
pub proof fn lemma_flat_ac_fields(cx: int, cy: int, quantised_max: nat, dc: Seq<u8>, ac: Seq<[u8; 3]>)
    requires
        forall|i: int| 0 <= i < ac.len() ==> (#[trigger] ac[i])@ == seq![9u8, 9u8, 9u8],
    ensures
        forall|i: int|
            0 <= i < ac.len() ==> #[trigger] hash(cx, cy, quantised_max, dc, ac).subrange(
                6 + 2 * i,
                8 + 2 * i,
            ) == base83(3429, 2),
{
    let head = base83(((cx - 1) + (cy - 1) * 9) as nat, 1) + base83(
        if ac.len() == 0 { 0 } else { quantised_max },
        1,
    ) + base83(crate::encoder::dc_value(dc) as nat, 4);
    lemma_base83_shape(((cx - 1) + (cy - 1) * 9) as nat, 1);
    lemma_base83_shape(if ac.len() == 0 { 0 } else { quantised_max }, 1);
    lemma_base83_shape(crate::encoder::dc_value(dc) as nat, 4);
    lemma_ac_fields(ac);
    let h = hash(cx, cy, quantised_max, dc, ac);
    assert(h == head + ac_fields(ac));
    assert forall|i: int| 0 <= i < ac.len() implies #[trigger] h.subrange(6 + 2 * i, 8 + 2 * i)
        == base83(3429, 2) by {
        assert(ac[i]@[0] == 9 && ac[i]@[1] == 9 && ac[i]@[2] == 9);
        assert(ac_value(ac[i]@) == 3429);
        assert(ac_fields(ac).subrange(2 * i, 2 * i + 2) == base83(3429, 2));
        assert(h.subrange(6 + 2 * i, 8 + 2 * i) =~= ac_fields(ac).subrange(2 * i, 2 * i + 2));
    }
}

} // verus!
