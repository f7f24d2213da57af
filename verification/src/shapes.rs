//! The seven piece kinds, each in four orientations, as 4x4 matrices of
//! occupied (1) and empty (0) cells.

use vstd::prelude::*;

verus! {

/// A piece in one orientation: `m[row][col] == 1` where the piece has a cell.
pub type Matrix = [[u8; 4]; 4];

/// Number of piece kinds.
pub const KINDS: usize = 7;
/// Number of orientations of each kind.
pub const ORIENTATIONS: usize = 4;

pub const L1: Matrix = [[1, 1, 1, 1], [0, 0, 0, 0], [0, 0, 0, 0], [0, 0, 0, 0]];
pub const L2: Matrix = [[1, 0, 0, 0], [1, 0, 0, 0], [1, 0, 0, 0], [1, 0, 0, 0]];
pub const S1: Matrix = [[1, 1, 0, 0], [1, 1, 0, 0], [0, 0, 0, 0], [0, 0, 0, 0]];
pub const Z11: Matrix = [[0, 1, 1, 0], [1, 1, 0, 0], [0, 0, 0, 0], [0, 0, 0, 0]];
pub const Z12: Matrix = [[1, 0, 0, 0], [1, 1, 0, 0], [0, 1, 0, 0], [0, 0, 0, 0]];
pub const Z21: Matrix = [[1, 1, 0, 0], [0, 1, 1, 0], [0, 0, 0, 0], [0, 0, 0, 0]];
pub const Z22: Matrix = [[0, 1, 0, 0], [1, 1, 0, 0], [1, 0, 0, 0], [0, 0, 0, 0]];
pub const W1: Matrix = [[0, 1, 0, 0], [1, 1, 1, 0], [0, 0, 0, 0], [0, 0, 0, 0]];
pub const W2: Matrix = [[1, 0, 0, 0], [1, 1, 0, 0], [1, 0, 0, 0], [0, 0, 0, 0]];
pub const W3: Matrix = [[1, 1, 1, 0], [0, 1, 0, 0], [0, 0, 0, 0], [0, 0, 0, 0]];
pub const W4: Matrix = [[0, 1, 0, 0], [1, 1, 0, 0], [0, 1, 0, 0], [0, 0, 0, 0]];
pub const L11: Matrix = [[0, 1, 0, 0], [0, 1, 0, 0], [1, 1, 0, 0], [0, 0, 0, 0]];
pub const L12: Matrix = [[1, 0, 0, 0], [1, 1, 1, 0], [0, 0, 0, 0], [0, 0, 0, 0]];
pub const L13: Matrix = [[1, 1, 0, 0], [1, 0, 0, 0], [1, 0, 0, 0], [0, 0, 0, 0]];
pub const L14: Matrix = [[1, 1, 1, 0], [0, 0, 1, 0], [0, 0, 0, 0], [0, 0, 0, 0]];
pub const L21: Matrix = [[1, 0, 0, 0], [1, 0, 0, 0], [1, 1, 0, 0], [0, 0, 0, 0]];
pub const L22: Matrix = [[1, 1, 1, 0], [1, 0, 0, 0], [0, 0, 0, 0], [0, 0, 0, 0]];
pub const L23: Matrix = [[1, 1, 0, 0], [0, 1, 0, 0], [0, 1, 0, 0], [0, 0, 0, 0]];
pub const L24: Matrix = [[0, 0, 1, 0], [1, 1, 1, 0], [0, 0, 0, 0], [0, 0, 0, 0]];

/// The piece library, indexed by kind, then orientation.
pub const BLOCKSLIB: [[Matrix; 4]; 7] = [
    [L1, L2, L1, L2],
    [S1, S1, S1, S1],
    [Z11, Z12, Z11, Z12],
    [Z21, Z22, Z21, Z22],
    [W1, W2, W3, W4],
    [L11, L12, L13, L14],
    [L21, L22, L23, L24],
];

/// The matrix of kind `type_id` in orientation `shape_id`.
pub open spec fn spec_shape(type_id: int, shape_id: int) -> Matrix {
    BLOCKSLIB[type_id][shape_id]
}

/// A kind and orientation that name an entry of the library.
pub open spec fn valid_piece(type_id: int, shape_id: int) -> bool {
    0 <= type_id < 7 && 0 <= shape_id < 4
}

/// Looks up the matrix of kind `type_id` in orientation `shape_id`.
pub fn shape_matrix(type_id: usize, shape_id: usize) -> (m: Matrix)
    requires
        valid_piece(type_id as int, shape_id as int),
    ensures
        m == spec_shape(type_id as int, shape_id as int),
{
    BLOCKSLIB[type_id][shape_id]
}

/// The orientation a turn leads to.
pub open spec fn next_orientation(shape_id: int) -> int {
    (shape_id + 1) % 4
}

} // verus!
