//! Centering a grid on a square, zero-filled canvas.
use vstd::prelude::*;

use crate::error::Error;
use crate::types::BitDepth;

verus! {

/// Side of the square canvas: the longer of the two dimensions.
pub open spec fn square_side(cols: nat, rows: nat) -> nat {
    if cols >= rows {
        cols
    } else {
        rows
    }
}

/// Offset that centers `len` samples on a side of `side` samples (rounded down).
pub open spec fn center_offset(side: nat, len: nat) -> nat {
    ((side - len) as nat) / 2
}

/// Sample `i` (row-major) of the square canvas that centers the `cols × rows` grid `src`.
pub open spec fn padded_sample<T>(src: Seq<T>, cols: nat, rows: nat, zero: T, i: int) -> T {
    let side = square_side(cols, rows);
    let r = i / side as int;
    let c = i % side as int;
    let top = center_offset(side, rows) as int;
    let left = center_offset(side, cols) as int;
    if top <= r < top + rows && left <= c < left + cols {
        src[(r - top) * cols + (c - left)]
    } else {
        zero
    }
}

/// The whole square canvas, row-major, `side × side` samples.
pub open spec fn padded<T>(src: Seq<T>, cols: nat, rows: nat, zero: T) -> Seq<T> {
    let side = square_side(cols, rows);
    Seq::new(side * side, |i: int| padded_sample(src, cols, rows, zero, i))
}

/// Centers one plane on its square canvas, filling the border with `zero`.
fn pad_plane<T: Copy>(src: &[T], cols: usize, rows: usize, zero: T) -> (out: Vec<T>)
    requires
        src@.len() == cols * rows,
        square_side(cols as nat, rows as nat) * square_side(cols as nat, rows as nat)
            <= usize::MAX,
    ensures
        out@ == padded(src@, cols as nat, rows as nat, zero),
{
    let side: usize = if cols >= rows {
        cols
    } else {
        rows
    };
    let top: usize = (side - rows) / 2;
    let left: usize = (side - cols) / 2;
    let total: usize = side * side;
    let n: usize = src.len();
    let mut out: Vec<T> = Vec::with_capacity(total);
    let mut i: usize = 0;
    while i < total
        invariant
            side as nat == square_side(cols as nat, rows as nat),
            top as nat == center_offset(side as nat, rows as nat),
            left as nat == center_offset(side as nat, cols as nat),
            total == side * side,
            src@.len() == cols * rows,
            n == src@.len(),
            i <= total,
            out@.len() == i,
            forall|k: int|
                0 <= k < i ==> out@[k] == padded_sample(src@, cols as nat, rows as nat, zero, k),
        decreases total - i,
    {
        assert(side > 0) by (nonlinear_arith)
            requires
                i < total,
                total == side * side,
        ;
        let r: usize = i / side;
        let c: usize = i % side;
        let v: T = if top <= r && r < top + rows && left <= c && c < left + cols {
            let dr: usize = r - top;
            let dc: usize = c - left;
            assert(dr * cols <= dr * cols + dc < cols * rows) by (nonlinear_arith)
                requires
                    dr < rows,
                    dc < cols,
            ;
            src[dr * cols + dc]
        } else {
            zero
        };
        out.push(v);
        i = i + 1;
    }
    assert(out@ =~= padded(src@, cols as nat, rows as nat, zero));
    out
}

/// Centers a `cols × rows` band on a square canvas whose side is the longer dimension,
/// zero-filling the border. 8-bit input comes in `u8_data`; 16-bit input in `u16_data`,
/// which must then be present.
pub fn add_padding_to_square(
    u8_data: &[u8],
    u16_data: Option<&[u16]>,
    cols: usize,
    rows: usize,
    bit_depth: BitDepth,
) -> (r: Result<(Vec<u8>, Option<Vec<u16>>), Error>)
    requires
        bit_depth == BitDepth::U8 ==> u8_data@.len() == cols * rows,
        bit_depth == BitDepth::U16 && u16_data is Some ==> u16_data->0@.len() == cols * rows,
        square_side(cols as nat, rows as nat) * square_side(cols as nat, rows as nat)
            <= usize::MAX,
    ensures
        bit_depth == BitDepth::U8 ==> r is Ok && r->Ok_0.0@ == padded(
            u8_data@,
            cols as nat,
            rows as nat,
            0u8,
        ) && r->Ok_0.1 is None,
        bit_depth == BitDepth::U16 && u16_data is None ==> r == Err::<
            (Vec<u8>, Option<Vec<u16>>),
            Error,
        >(Error::MissingBand),
        bit_depth == BitDepth::U16 && u16_data is Some ==> r is Ok && r->Ok_0.0@.len() == 0
            && r->Ok_0.1 is Some && r->Ok_0.1->0@ == padded(
            u16_data->0@,
            cols as nat,
            rows as nat,
            0u16,
        ),
{
    match bit_depth {
        BitDepth::U8 => {
            let padded_u8 = pad_plane(u8_data, cols, rows, 0u8);
            Ok((padded_u8, None))
        },
        BitDepth::U16 => match u16_data {
            None => Err(Error::MissingBand),
            Some(data) => {
                let padded_u16 = pad_plane(data, cols, rows, 0u16);
                Ok((Vec::new(), Some(padded_u16)))
            },
        },
    }
}

} // verus!
