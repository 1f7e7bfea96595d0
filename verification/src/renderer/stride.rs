//! Bitmaps whose rows are padded to a given length, as a CPU compositor takes them.

use vstd::prelude::*;

verus! {

/// The byte at place `at` of a bitmap of rows `row_bytes` long, each padded
/// with zeros to `stride` bytes.
pub open spec fn padded_byte(data: Seq<u8>, row_bytes: int, stride: int, at: int) -> u8 {
    if at % stride < row_bytes {
        data[(at / stride) * row_bytes + at % stride]
    } else {
        0
    }
}

/// The bitmap with every row padded to `stride` bytes.
pub open spec fn padded(data: Seq<u8>, row_bytes: nat, rows: nat, stride: nat) -> Seq<u8> {
    Seq::new(rows * stride, |at: int| padded_byte(data, row_bytes as int, stride as int, at))
}

/// Pads every row of a bitmap with zeros to `stride` bytes. `None` when
/// the bitmap does not hold `rows` rows of `row_bytes` bytes, or when a row
/// is longer than `stride`.
pub fn pad_rows(data: &[u8], row_bytes: usize, rows: usize, stride: usize) -> (image: Option<Vec<u8>>)
    ensures
        match image {
            Some(image) => data@.len() == row_bytes * rows && row_bytes <= stride && image@
                == padded(data@, row_bytes as nat, rows as nat, stride as nat),
            None => data@.len() != row_bytes * rows || row_bytes > stride,
        },
{
    if row_bytes > stride {
        return None;
    }
    if rows == 0 || row_bytes == 0 {
        assert(row_bytes * rows == 0) by (nonlinear_arith)
            requires
                rows == 0 || row_bytes == 0,
        ;
        if data.len() != 0 {
            return None;
        }
    } else {
        // A bitmap that has the rows is at least as long as their number.
        if data.len() / row_bytes != rows || data.len() % row_bytes != 0 {
            proof {
                if data@.len() == row_bytes * rows {
                    vstd::arithmetic::div_mod::lemma_fundamental_div_mod_converse(
                        data@.len() as int,
                        row_bytes as int,
                        rows as int,
                        0,
                    );
                }
            }
            return None;
        }
        proof {
            vstd::arithmetic::div_mod::lemma_fundamental_div_mod(data@.len() as int, row_bytes as int);
            assert(row_bytes * rows == rows * row_bytes) by (nonlinear_arith);
        }
    }
    let total: usize = data.len();
    let mut image: Vec<u8> = Vec::new();
    let mut row: usize = 0;
    while row < rows
        invariant
            total == data@.len(),
            row <= rows,
            row_bytes <= stride,
            data@.len() == row_bytes * rows,
            image@.len() == row * stride,
            forall|at: int|
                0 <= at < image@.len() ==> image@[at] == padded_byte(
                    data@,
                    row_bytes as int,
                    stride as int,
                    at,
                ),
        decreases rows - row,
    {
        let ghost start = image@.len() as int;
        proof {
            assert(row_bytes * rows == rows * row_bytes) by (nonlinear_arith);
            assert(0 <= row * row_bytes && row * row_bytes + row_bytes <= rows * row_bytes)
                by (nonlinear_arith)
                requires
                    0 <= row < rows,
                    0 <= row_bytes,
            ;
            assert(row * row_bytes + row_bytes <= data@.len());
        }
        let from: usize = row * row_bytes;
        let mut column: usize = 0;
        while column < stride
            invariant
                total == data@.len(),
                column <= stride,
                row < rows,
                row_bytes <= stride,
                from == row * row_bytes,
                from + row_bytes <= data@.len(),
                start == row * stride,
                image@.len() == start + column,
                forall|at: int|
                    0 <= at < image@.len() ==> image@[at] == padded_byte(
                        data@,
                        row_bytes as int,
                        stride as int,
                        at,
                    ),
            decreases stride - column,
        {
            let byte: u8 = if column < row_bytes {
                data[from + column]
            } else {
                0
            };
            let ghost before = image@;
            image.push(byte);
            proof {
                let at = start + column;
                assert(at / (stride as int) == row && at % (stride as int) == column) by {
                    vstd::arithmetic::div_mod::lemma_fundamental_div_mod_converse(
                        at,
                        stride as int,
                        row as int,
                        column as int,
                    );
                    assert(row * stride == (row as int) * (stride as int));
                }
                assert((at / (stride as int)) * row_bytes == from) by (nonlinear_arith)
                    requires
                        at / (stride as int) == row,
                        from == row * row_bytes,
                ;
                assert forall|other: int| 0 <= other < image@.len() implies image@[other]
                    == padded_byte(data@, row_bytes as int, stride as int, other) by {
                    if other < before.len() {
                        assert(image@[other] == before[other]);
                    }
                }
            }
            column += 1;
        }
        assert((row + 1) * stride == row * stride + stride) by (nonlinear_arith);
        row += 1;
    }
    assert(image@ =~= padded(data@, row_bytes as nat, rows as nat, stride as nat));
    Some(image)
}

} // verus!
