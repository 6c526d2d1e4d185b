//! Index bookkeeping of square matrices, whatever their entries: the
//! submatrices that cofactor expansion walks through, and the transpose.
use vstd::prelude::*;

verus! {

/// The row (or column) of the larger matrix that row `i` of a submatrix
/// comes from, once row `k` has been struck out.
pub open spec fn skip(i: int, k: int) -> int {
    if i < k {
        i
    } else {
        i + 1
    }
}

fn skip_index(i: usize, k: usize) -> (r: usize)
    requires
        i < 3,
    ensures
        r == skip(i as int, k as int),
{
    if i < k {
        i
    } else {
        i + 1
    }
}

/// The 3x3 matrix left when row `row` and column `col` are struck out of `m`.
pub fn submatrix4<T: Copy>(m: &[[T; 4]; 4], row: usize, col: usize) -> (r: [[T; 3]; 3])
    requires
        row < 4,
        col < 4,
    ensures
        forall|i: int, j: int|
            0 <= i < 3 && 0 <= j < 3 ==> r@[i]@[j] == m@[skip(i, row as int)]@[skip(
                j,
                col as int,
            )],
{
    let (r0, r1, r2) = (skip_index(0, row), skip_index(1, row), skip_index(2, row));
    let (c0, c1, c2) = (skip_index(0, col), skip_index(1, col), skip_index(2, col));
    [
        [m[r0][c0], m[r0][c1], m[r0][c2]],
        [m[r1][c0], m[r1][c1], m[r1][c2]],
        [m[r2][c0], m[r2][c1], m[r2][c2]],
    ]
}

/// The 2x2 matrix left when row `row` and column `col` are struck out of `m`.
pub fn submatrix3<T: Copy>(m: &[[T; 3]; 3], row: usize, col: usize) -> (r: [[T; 2]; 2])
    requires
        row < 3,
        col < 3,
    ensures
        forall|i: int, j: int|
            0 <= i < 2 && 0 <= j < 2 ==> r@[i]@[j] == m@[skip(i, row as int)]@[skip(
                j,
                col as int,
            )],
{
    let (r0, r1) = (skip_index(0, row), skip_index(1, row));
    let (c0, c1) = (skip_index(0, col), skip_index(1, col));
    [[m[r0][c0], m[r0][c1]], [m[r1][c0], m[r1][c1]]]
}

/// `m` with rows and columns exchanged.
pub fn transpose4<T: Copy>(m: &[[T; 4]; 4]) -> (r: [[T; 4]; 4])
    ensures
        forall|i: int, j: int| 0 <= i < 4 && 0 <= j < 4 ==> r@[i]@[j] == m@[j]@[i],
{
    [
        [m[0][0], m[1][0], m[2][0], m[3][0]],
        [m[0][1], m[1][1], m[2][1], m[3][1]],
        [m[0][2], m[1][2], m[2][2], m[3][2]],
        [m[0][3], m[1][3], m[2][3], m[3][3]],
    ]
}

} // verus!
