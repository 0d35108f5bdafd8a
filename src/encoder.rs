//! Validation of the encoder's inputs, packing of the quantised coefficients
//! and assembly of the hash string.

use crate::base83::{base83, encode_base83_string};
use vstd::prelude::*;

verus! {

/// Why an image cannot be encoded.
#[derive(Clone, Copy, Debug, PartialEq, Eq, Structural)]
pub enum EncodingError {
    /// A grid dimension lies outside 1 to 9.
    ComponentsNumberInvalid,
    /// The buffer is not `width * height` pixels of four bytes, or the image
    /// is empty.
    BytesPerPixelMismatch,
}

/// Both grid dimensions lie in 1 to 9.
pub open spec fn components_valid(cx: int, cy: int) -> bool {
    1 <= cx <= 9 && 1 <= cy <= 9
}

/// The outcome of validating a buffer of `len` bytes for a `width` by
/// `height` image and a `cx` by `cy` grid.
pub open spec fn input_check(len: int, cx: int, cy: int, width: int, height: int) -> Result<
    (),
    EncodingError,
> {
    if !components_valid(cx, cy) {
        Err(EncodingError::ComponentsNumberInvalid)
    } else if width == 0 || height == 0 || width * height * 4 != len {
        Err(EncodingError::BytesPerPixelMismatch)
    } else {
        Ok(())
    }
}

/// Checks the grid, then that `pixels` holds `width * height` RGBA pixels of a
/// non-empty image.
pub fn validate(pixels: &[u8], cx: usize, cy: usize, width: usize, height: usize) -> (r: Result<
    (),
    EncodingError,
>)
    ensures
        r == input_check(pixels@.len() as int, cx as int, cy as int, width as int, height as int),
{
    if cx < 1 || cx > 9 || cy < 1 || cy > 9 {
        return Err(EncodingError::ComponentsNumberInvalid);
    }
    if width == 0 || height == 0 {
        return Err(EncodingError::BytesPerPixelMismatch);
    }
    let len = pixels.len();
    match width.checked_mul(height) {
        None => {
            assert(width * height * 4 > len) by (nonlinear_arith)
                requires
                    width * height > usize::MAX,
                    len <= usize::MAX,
            ;
            Err(EncodingError::BytesPerPixelMismatch)
        },
        Some(area) => match area.checked_mul(4) {
            None => Err(EncodingError::BytesPerPixelMismatch),
            Some(n) => {
                if n != len {
                    Err(EncodingError::BytesPerPixelMismatch)
                } else {
                    Ok(())
                }
            },
        },
    }
}

/// The grid cells in row-major order: cell `i` is `(i % cx, i / cx)`, so
/// the first is the DC cell `(0, 0)` and the others are the AC cells in the
/// order the hash lists them.
pub fn component_cells(cx: usize, cy: usize) -> (r: Vec<(usize, usize)>)
    requires
        components_valid(cx as int, cy as int),
    ensures
        r@.len() == cx * cy,
        forall|i: int| 0 <= i < r@.len() ==> #[trigger] r@[i] == ((i % cx as int) as usize, (i / cx as int) as usize),
{
    assert(cx * cy <= 81) by (nonlinear_arith)
        requires
            components_valid(cx as int, cy as int),
    ;
    let n: usize = cx * cy;
    let mut r: Vec<(usize, usize)> = Vec::new();
    let mut i: usize = 0;
    while i < n
        invariant
            n == cx * cy,
            1 <= cx <= 9,
            i <= n,
            r@.len() == i,
            forall|j: int| 0 <= j < i ==> #[trigger] r@[j] == ((j % cx as int) as usize, (j / cx as int) as usize),
        decreases n - i,
    {
        r.push((i % cx, i / cx));
        i = i + 1;
    }
    r
}

/// The first hash field: `(cx - 1) + (cy - 1) * 9`, from 0 to 80.
pub open spec fn size_flag_value(cx: int, cy: int) -> int {
    (cx - 1) + (cy - 1) * 9
}

/// The size flag of a valid grid.
pub fn size_flag(cx: usize, cy: usize) -> (r: usize)
    requires
        components_valid(cx as int, cy as int),
    ensures
        r == size_flag_value(cx as int, cy as int),
        r <= 80,
{
    (cx - 1) + (cy - 1) * 9
}

/// The maximum AC magnitude, already scaled by 166 and floored, limited to
/// the largest one-digit value, 82.
pub fn quantise_maximum(scaled: usize) -> (r: usize)
    ensures
        r == if scaled > 82 { 82 } else { scaled },
{
    if scaled > 82 {
        82
    } else {
        scaled
    }
}

/// The DC colour, three sRGB bytes, as one 24-bit integer.
pub open spec fn dc_value(c: Seq<u8>) -> int {
    c[0] as int * 65536 + c[1] as int * 256 + c[2] as int
}

/// Packs the sRGB bytes of the DC colour as `(r << 16) | (g << 8) | b`.
pub fn encode_dc(value: [u8; 3]) -> (r: usize)
    ensures
        r == dc_value(value@),
        r < 16777216,
{
    (value[0] as usize) * 65536 + (value[1] as usize) * 256 + (value[2] as usize)
}

/// Three AC quantisation indices, each from 0 to 18.
pub open spec fn ac_indices_valid(q: Seq<u8>) -> bool {
    q[0] <= 18 && q[1] <= 18 && q[2] <= 18
}

/// Three AC quantisation indices as one base-19 integer.
pub open spec fn ac_value(q: Seq<u8>) -> int {
    q[0] as int * 361 + q[1] as int * 19 + q[2] as int
}

/// Packs the three quantisation indices of an AC coefficient in base 19.
pub fn encode_ac(value: [u8; 3]) -> (r: usize)
    requires
        ac_indices_valid(value@),
    ensures
        r == ac_value(value@),
        r <= 6858,
{
    (value[0] as usize) * 361 + (value[1] as usize) * 19 + (value[2] as usize)
}

/// The AC fields of the hash: two digits for each coefficient, in order.
pub open spec fn ac_fields(ac: Seq<[u8; 3]>) -> Seq<char>
    decreases ac.len(),
{
    if ac.len() == 0 {
        Seq::empty()
    } else {
        ac_fields(ac.drop_last()) + base83(ac_value(ac.last()@) as nat, 2)
    }
}

/// The maximum-value flag: the quantised maximum, or 0 when the grid has no
/// AC coefficient.
pub open spec fn max_flag_value(quantised_max: nat, ac: Seq<[u8; 3]>) -> nat {
    if ac.len() == 0 {
        0
    } else {
        quantised_max
    }
}

/// The hash string: size flag, maximum-value flag, DC colour in four digits,
/// then each AC coefficient in two digits.
pub open spec fn hash(cx: int, cy: int, quantised_max: nat, dc: Seq<u8>, ac: Seq<[u8; 3]>) -> Seq<
    char,
> {
    base83(size_flag_value(cx, cy) as nat, 1) + base83(max_flag_value(quantised_max, ac), 1)
        + base83(dc_value(dc) as nat, 4) + ac_fields(ac)
}

/// The quantised coefficients of a `cx` by `cy` grid fit the hash fields.
pub open spec fn quantised_valid(cx: int, cy: int, quantised_max: nat, ac: Seq<[u8; 3]>) -> bool {
    &&& ac.len() == cx * cy - 1
    &&& quantised_max <= 82
    &&& forall|i: int| 0 <= i < ac.len() ==> ac_indices_valid(#[trigger] ac[i]@)
}

/// Writes the hash of a `cx` by `cy` grid from its quantised coefficients:
/// `quantised_max` the quantised AC magnitude, `dc` the sRGB bytes of the DC
/// colour, `ac` the quantisation indices of the AC coefficients in row-major
/// order.
pub fn encode(cx: usize, cy: usize, quantised_max: usize, dc: [u8; 3], ac: &Vec<[u8; 3]>) -> (r:
    Result<String, EncodingError>)
    requires
        components_valid(cx as int, cy as int) ==> quantised_valid(
            cx as int,
            cy as int,
            quantised_max as nat,
            ac@,
        ),
    ensures
        components_valid(cx as int, cy as int) ==> r is Ok && r->Ok_0@ == hash(
            cx as int,
            cy as int,
            quantised_max as nat,
            dc@,
            ac@,
        ),
        !components_valid(cx as int, cy as int) ==> r == Err::<String, EncodingError>(
            EncodingError::ComponentsNumberInvalid,
        ),
{
    if cx < 1 || cx > 9 || cy < 1 || cy > 9 {
        return Err(EncodingError::ComponentsNumberInvalid);
    }
    let mut out = String::new();
    let size = encode_base83_string(size_flag(cx, cy), 1);
    out.append(size.as_str());
    let max_flag: usize = if ac.len() == 0 {
        0
    } else {
        quantised_max
    };
    let flag = encode_base83_string(max_flag, 1);
    out.append(flag.as_str());
    let colour = encode_base83_string(encode_dc(dc), 4);
    out.append(colour.as_str());
    let ghost head = out@;
    assert(ac@.subrange(0, 0) =~= Seq::<[u8; 3]>::empty());
    let mut i: usize = 0;
    while i < ac.len()
        invariant
            i <= ac@.len(),
            quantised_valid(cx as int, cy as int, quantised_max as nat, ac@),
            out@ == head + ac_fields(ac@.subrange(0, i as int)),
        decreases ac@.len() - i,
    {
        let field = encode_base83_string(encode_ac(ac[i]), 2);
        out.append(field.as_str());
        assert(ac@.subrange(0, i + 1).drop_last() =~= ac@.subrange(0, i as int));
        i = i + 1;
    }
    assert(ac@.subrange(0, ac@.len() as int) =~= ac@);
    Ok(out)
}

} // verus!
