//! What holds of the board across the operations of play: the walls and
//! the 0/1 cells survive every move, one landing fills at most four rows,
//! clearing leaves no full row, and a reset gives back the starting board.

use vstd::prelude::*;
use crate::board::{Screen, in_grid, in_playfield, visible_row};
use crate::shapes::{Matrix, spec_shape, valid_piece, next_orientation};
use crate::game::{line_points, spawn_row, spec_piece_height};

verus! {

/// Every cell of `m` is 0 or 1.
pub open spec fn matrix_binary(m: Matrix) -> bool {
    forall|a: int, b: int| 0 <= a < 4 && 0 <= b < 4 ==> #[trigger] m[a][b] <= 1
}

/// No visible row of the board is full.
pub open spec fn no_full_rows(s: Screen) -> bool {
    s.full_rows().len() == 0
}

/// A board play can go on with: walls in place, every cell 0 or 1, and
/// no full row waiting to be cleared.
pub open spec fn playable(s: Screen) -> bool {
    s.walls_intact() && s.binary() && no_full_rows(s)
}

/// How many cells of `m` are occupied.
pub open spec fn occupied_cells(m: Matrix) -> int {
    m[0][0] + m[0][1] + m[0][2] + m[0][3] + m[1][0] + m[1][1] + m[1][2] + m[1][3] + m[2][0]
        + m[2][1] + m[2][2] + m[2][3] + m[3][0] + m[3][1] + m[3][2] + m[3][3]
}

/// With no full row, no visible row is full.
proof fn lemma_no_full_row_means_none(s: Screen, r: int)
    requires
        no_full_rows(s),
        visible_row(r),
    ensures
        !s.row_full(r),
{
    s.lemma_full_upto(24);
    if s.row_full(r) {
        assert(s.full_upto(24).contains(r));
    }
}

/// A board whose visible rows are none of them full has no full rows.
proof fn lemma_none_full_means_no_full_rows(s: Screen)
    requires
        forall|r: int| visible_row(r) ==> !s.row_full(r),
    ensures
        no_full_rows(s),
{
    s.lemma_full_upto(24);
    if s.full_rows().len() > 0 {
        let r = s.full_upto(24)[0];
        assert(4 <= r < 24);
        assert(s.row_full(r));
        assert(visible_row(r));
        assert(!s.row_full(r));
    }
}

/// A strictly rising sequence inside a range of four integers has at most
/// four elements.
proof fn lemma_rising_in_four(s: Seq<int>, lo: int)
    requires
        forall|k1: int, k2: int| 0 <= k1 < k2 < s.len() ==> s[k1] < s[k2],
        forall|k: int| 0 <= k < s.len() ==> lo <= #[trigger] s[k] < lo + 4,
    ensures
        s.len() <= 4,
{
    if s.len() > 4 {
        assert(s[0] < s[1]);
        assert(s[1] < s[2]);
        assert(s[2] < s[3]);
        assert(s[3] < s[4]);
        assert(lo <= s[0]);
        assert(s[4] < lo + 4);
    }
}

/// Every piece of the library is made of exactly four cells, each 0 or 1.
pub proof fn lemma_library_tetrominoes(type_id: int, shape_id: int)
    requires
        valid_piece(type_id, shape_id),
    ensures
        occupied_cells(spec_shape(type_id, shape_id)) == 4,
        matrix_binary(spec_shape(type_id, shape_id)),
{
}

/// Every piece of the library has an occupied cell in its left column
/// and one in its top row.
pub proof fn lemma_library_left_and_top(type_id: int, shape_id: int)
    requires
        valid_piece(type_id, shape_id),
    ensures
        spec_shape(type_id, shape_id)[0][0] == 1 || spec_shape(type_id, shape_id)[1][0] == 1
            || spec_shape(type_id, shape_id)[2][0] == 1 || spec_shape(type_id, shape_id)[3][0] == 1,
        spec_shape(type_id, shape_id)[0][0] == 1 || spec_shape(type_id, shape_id)[0][1] == 1
            || spec_shape(type_id, shape_id)[0][2] == 1 || spec_shape(type_id, shape_id)[0][3] == 1,
{
}

/// A library piece resting on a board whose walls are in place sits with
/// its top left corner inside the playfield: column 4 to 13, row 0 to 23.
/// So a piece that only ever moves to where it rests never leaves the
/// playfield.
pub proof fn lemma_resting_piece_in_playfield(s: Screen, type_id: int, shape_id: int, pi: int, pj: int)
    requires
        s.walls_intact(),
        valid_piece(type_id, shape_id),
        s.rests(spec_shape(type_id, shape_id), pi, pj),
    ensures
        4 <= pj <= 13,
        0 <= pi <= 23,
{
    let m = spec_shape(type_id, shape_id);
    lemma_library_left_and_top(type_id, shape_id);
    let a = if m[0][0] == 1 { 0int } else if m[1][0] == 1 { 1int } else if m[2][0] == 1 { 2int } else { 3int };
    assert(m[a][0] == 1);
    assert(in_grid(pi + a, pj + 0));
    assert(s.at(pi + a, pj + 0) != 1);
    let b = if m[0][0] == 1 { 0int } else if m[0][1] == 1 { 1int } else if m[0][2] == 1 { 2int } else { 3int };
    assert(m[0][b] == 1);
    assert(in_grid(pi + 0, pj + b));
    assert(s.at(pi + 0, pj + b) != 1);
}

/// Four turns bring a piece back to the orientation it started in.
pub proof fn lemma_four_turns(shape_id: int)
    requires
        0 <= shape_id < 4,
    ensures
        next_orientation(next_orientation(next_orientation(next_orientation(shape_id))))
            == shape_id,
        0 <= next_orientation(shape_id) < 4,
{
}

/// Turning runs through all four orientations in the order 0, 1, 2, 3 and
/// back to 0: one, two or three turns never give back the orientation a
/// piece started in, and each turn goes one step up, from 3 to 0.
pub proof fn lemma_turns_visit_every_orientation(shape_id: int)
    requires
        0 <= shape_id < 4,
    ensures
        next_orientation(shape_id) != shape_id,
        next_orientation(next_orientation(shape_id)) != shape_id,
        next_orientation(next_orientation(next_orientation(shape_id))) != shape_id,
        shape_id < 3 ==> next_orientation(shape_id) == shape_id + 1,
        shape_id == 3 ==> next_orientation(shape_id) == 0,
{
}

/// The starting board is playable and nothing sits in the hidden rows.
pub proof fn lemma_initial_board(s: Screen)
    requires
        s.is_initial(),
    ensures
        playable(s),
        !s.spec_top_row_occupied(),
{
    assert forall|r: int| visible_row(r) implies !s.row_full(r) by {
        assert(s.at(r, 4) == 0);
    }
    lemma_none_full_means_no_full_rows(s);
}

/// A 0/1 piece that fits on a 0/1 board can be added without overflow.
pub proof fn lemma_fitting_lock_no_overflow(old: Screen, m: Matrix, pi: int, pj: int)
    requires
        old.binary(),
        matrix_binary(m),
        old.fits(m, pi, pj),
        Screen::window_in_bounds(pi, pj),
    ensures
        old.lock_no_overflow(m, pi, pj),
{
    assert forall|a: int, b: int| 0 <= a < 4 && 0 <= b < 4 implies #[trigger] old.at(pi + a, pj + b)
        + m[a][b] <= 255 by {
        assert(in_grid(pi + a, pj + b));
        assert(old.at(pi + a, pj + b) <= 1);
        assert(m[a][b] <= 1);
    }
}

/// Locking a 0/1 piece where it fits keeps the walls in place and every
/// cell 0 or 1.
pub proof fn lemma_lock_keeps_walls_and_binary(old: Screen, new: Screen, m: Matrix, pi: int, pj: int)
    requires
        old.walls_intact(),
        old.binary(),
        matrix_binary(m),
        old.fits(m, pi, pj),
        Screen::window_in_bounds(pi, pj),
        new.is_lock_of(old, m, pi, pj),
    ensures
        new.walls_intact(),
        new.binary(),
{
    assert forall|r: int, c: int| in_grid(r, c) implies #[trigger] new.at(r, c) <= 1 && (
    !in_playfield(r, c) ==> new.at(r, c) == 1) by {
        assert(new.at(r, c) == old.at(r, c) + Screen::lock_delta(m, pi, pj, r, c));
        assert(old.at(r, c) <= 1);
        if pi <= r < pi + 4 && pj <= c < pj + 4 {
            let a = r - pi;
            let b = c - pj;
            assert(m[a][b] <= 1);
            if m[a][b] == 1 {
                assert(old.at(pi + a, pj + b) != 1);
            }
        }
    }
}

/// On a board with no full row, locking a piece fills at most the four
/// rows the piece spans, so at most four rows come to be full at once.
pub proof fn lemma_landing_fills_at_most_four_rows(old: Screen, new: Screen, m: Matrix, pi: int, pj: int)
    requires
        no_full_rows(old),
        Screen::window_in_bounds(pi, pj),
        new.is_lock_of(old, m, pi, pj),
    ensures
        forall|r: int| visible_row(r) && new.row_full(r) ==> pi <= r < pi + 4,
        new.full_rows().len() <= 4,
{
    assert forall|r: int| visible_row(r) && new.row_full(r) implies pi <= r < pi + 4 by {
        if !(pi <= r < pi + 4) {
            lemma_no_full_row_means_none(old, r);
            assert forall|c: int| 4 <= c < 14 implies #[trigger] old.at(r, c) != 0 by {
                assert(new.at(r, c) != 0);
                assert(new.at(r, c) == old.at(r, c) + Screen::lock_delta(m, pi, pj, r, c));
            }
            assert(old.row_full(r));
        }
    }
    new.lemma_full_upto(24);
    let f = new.full_rows();
    assert forall|k: int| 0 <= k < f.len() implies pi <= #[trigger] f[k] < pi + 4 by {
        assert(4 <= f[k] < 24);
        assert(new.row_full(f[k]));
        assert(visible_row(f[k]));
    }
    lemma_rising_in_four(f, pi);
}

/// Clearing leaves no full row behind.
pub proof fn lemma_clear_leaves_no_full_rows(old: Screen, new: Screen)
    requires
        new.is_clear_of(old),
    ensures
        no_full_rows(new),
{
    old.lemma_kept_from(4);
    old.lemma_full_upto(4);
    let k = old.full_rows().len() as int;
    let kept = old.kept_from(4);
    assert forall|r: int| visible_row(r) implies !new.row_full(r) by {
        if r < 4 + k {
            assert(new.at(r, 4) == old.cleared_at(r, 4));
        } else {
            let src = kept[r - 4 - k];
            assert(!old.row_full(src));
            let c = choose|c: int| 4 <= c < 14 && #[trigger] old.at(src, c) == 0;
            assert(new.at(r, c) == old.cleared_at(r, c));
        }
    }
    lemma_none_full_means_no_full_rows(new);
}

/// Clearing keeps the walls in place and every cell 0 or 1.
pub proof fn lemma_clear_keeps_walls_and_binary(old: Screen, new: Screen)
    requires
        old.walls_intact(),
        old.binary(),
        new.is_clear_of(old),
    ensures
        new.walls_intact(),
        new.binary(),
{
    old.lemma_kept_from(4);
    old.lemma_full_upto(4);
    let k = old.full_rows().len() as int;
    let kept = old.kept_from(4);
    assert forall|r: int, c: int| in_grid(r, c) implies #[trigger] new.at(r, c) <= 1 && (
    !in_playfield(r, c) ==> new.at(r, c) == 1) by {
        assert(new.at(r, c) == old.cleared_at(r, c));
        if visible_row(r) && 4 <= c < 14 && r >= 4 + k {
            let src = kept[r - 4 - k];
            assert(4 <= src < 24);
            assert(old.at(src, c) <= 1);
        }
    }
}

/// A landing where the piece fits, followed by clearing, takes a playable
/// board to a playable board; the clearing step's limit of four rows
/// always holds on the way.
pub proof fn lemma_landing_then_clear_keeps_playable(
    b0: Screen,
    b1: Screen,
    b2: Screen,
    m: Matrix,
    pi: int,
    pj: int,
)
    requires
        playable(b0),
        matrix_binary(m),
        b0.fits(m, pi, pj),
        Screen::window_in_bounds(pi, pj),
        b1.is_lock_of(b0, m, pi, pj),
        b2.is_clear_of(b1),
    ensures
        b0.lock_no_overflow(m, pi, pj),
        b1.full_rows().len() <= 4,
        playable(b2),
{
    lemma_fitting_lock_no_overflow(b0, m, pi, pj);
    lemma_lock_keeps_walls_and_binary(b0, b1, m, pi, pj);
    lemma_landing_fills_at_most_four_rows(b0, b1, m, pi, pj);
    lemma_clear_keeps_walls_and_binary(b1, b2);
    lemma_clear_leaves_no_full_rows(b1, b2);
}

/// Resetting a board whose walls are in place gives back the starting board.
pub proof fn lemma_reset_restores_initial(old: Screen, new: Screen)
    requires
        old.walls_intact(),
        new.is_reset_of(old),
    ensures
        new.is_initial(),
{
    assert forall|r: int, c: int| in_grid(r, c) implies #[trigger] new.at(r, c) == (if in_playfield(
        r,
        c,
    ) {
        0u8
    } else {
        1u8
    }) by {
        assert(new.at(r, c) == (if in_playfield(r, c) {
            0u8
        } else {
            old.at(r, c)
        }));
    }
}

/// Clearing scores: nothing for no row, and strictly more for every
/// further row cleared at once, so the score never goes down.
pub proof fn lemma_line_points_rise(k1: int, k2: int)
    requires
        0 <= k1 < k2 <= 4,
    ensures
        line_points(0) == 0,
        0 <= line_points(k1) < line_points(k2),
{
}

/// Locking adds the whole 4x4 matrix: every cell of the window at
/// (`pi`, `pj`) gains exactly the matrix entry over it, and every cell
/// outside the window keeps its value.
pub proof fn lemma_lock_adds_whole_matrix(old: Screen, new: Screen, m: Matrix, pi: int, pj: int)
    requires
        Screen::window_in_bounds(pi, pj),
        new.is_lock_of(old, m, pi, pj),
    ensures
        forall|a: int, b: int|
            0 <= a < 4 && 0 <= b < 4 ==> #[trigger] new.0[pi + a][pj + b] == old.0[pi + a][pj + b]
                + m[a][b],
        forall|r: int, c: int|
            in_grid(r, c) && !(pi <= r < pi + 4 && pj <= c < pj + 4) ==> #[trigger] new.0[r][c]
                == old.0[r][c],
{
    assert forall|a: int, b: int| 0 <= a < 4 && 0 <= b < 4 implies #[trigger] new.0[pi + a][pj + b]
        == old.0[pi + a][pj + b] + m[a][b] by {
        assert(in_grid(pi + a, pj + b));
        assert(new.at(pi + a, pj + b) == old.at(pi + a, pj + b) + Screen::lock_delta(
            m,
            pi,
            pj,
            pi + a,
            pj + b,
        ));
    }
    assert forall|r: int, c: int|
        in_grid(r, c) && !(pi <= r < pi + 4 && pj <= c < pj + 4) implies #[trigger] new.0[r][c]
        == old.0[r][c] by {
        assert(new.at(r, c) == old.at(r, c) + Screen::lock_delta(m, pi, pj, r, c));
    }
}

/// The hidden rows count as reached exactly when a playfield cell of row 3
/// (columns 4 to 13) is nonzero: any such cell makes the board top out,
/// and a board with all of them zero does not, whatever the walls hold.
pub proof fn lemma_top_row_cells(s: Screen, c: int)
    ensures
        4 <= c < 14 && s.0[3][c] != 0 ==> s.spec_top_row_occupied(),
        (forall|x: int| 4 <= x < 14 ==> #[trigger] s.0[3][x] == 0) ==> !s.spec_top_row_occupied(),
{
    if 4 <= c < 14 && s.0[3][c] != 0 {
        assert(s.at(3, c) != 0);
    }
    if forall|x: int| 4 <= x < 14 ==> #[trigger] s.0[3][x] == 0 {
        assert forall|x: int| 4 <= x < 14 implies #[trigger] s.at(3, x) == 0 by {
            assert(s.0[3][x] == 0);
        }
    }
}

/// A new library piece appears with its lowest occupied cell on row 3,
/// the lowest hidden row: the rows below its lowest occupied row hold no
/// 1, and that row plus the row it appears at is 3. Its top row is
/// occupied, so its height is one more than that lowest row.
pub proof fn lemma_spawn_lowest_cell_on_row_three(type_id: int, shape_id: int)
    requires
        valid_piece(type_id, shape_id),
    ensures
        exists|r: int, c: int|
            0 <= r < 4 && 0 <= c < 4 && #[trigger] spec_shape(type_id, shape_id)[r][c] == 1
                && spawn_row(spec_shape(type_id, shape_id)) + r == 3
                && spec_piece_height(spec_shape(type_id, shape_id)) == r + 1
                && forall|r2: int, c2: int|
                r < r2 < 4 && 0 <= c2 < 4 ==> spec_shape(type_id, shape_id)[r2][c2] != 1,
{
    let m = spec_shape(type_id, shape_id);
    assert(m[0][0] == 1 || m[0][1] == 1 || m[0][2] == 1);
    let r = if m[3][0] == 1 || m[3][1] == 1 || m[3][2] == 1 || m[3][3] == 1 {
        3int
    } else if m[2][0] == 1 || m[2][1] == 1 || m[2][2] == 1 || m[2][3] == 1 {
        2int
    } else if m[1][0] == 1 || m[1][1] == 1 || m[1][2] == 1 || m[1][3] == 1 {
        1int
    } else {
        0int
    };
    let c = if m[r][0] == 1 { 0int } else if m[r][1] == 1 { 1int } else if m[r][2] == 1 { 2int } else { 3int };
    assert(m[r][c] == 1);
    assert forall|r2: int, c2: int| r < r2 < 4 && 0 <= c2 < 4 implies m[r2][c2] != 1 by {
        assert(m[r2][0] != 1 && m[r2][1] != 1 && m[r2][2] != 1 && m[r2][3] != 1);
    }
    assert(crate::game::row_occupied(m, r));
    assert(crate::game::row_occupied(m, 0)) by {
        if m[0][0] == 1 {
            assert(m[0][0] == 1);
        } else if m[0][1] == 1 {
            assert(m[0][1] == 1);
        } else {
            assert(m[0][2] == 1);
        }
    }
    assert forall|r2: int| r < r2 < 4 implies !crate::game::row_occupied(m, r2) by {
        assert(m[r2][0] != 1 && m[r2][1] != 1 && m[r2][2] != 1 && m[r2][3] != 1);
    }
    assert(m[r][c] == 1);
}

} // verus!
