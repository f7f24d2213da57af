//! The playing board: a grid of cell counters framed by walls, with the
//! rules for collision, locking a piece into place and clearing full rows.

use vstd::prelude::*;
use crate::shapes::Matrix;

verus! {

/// Rows of the board, walls included.
pub const ROWS: usize = 20 + 4 + 4;
/// Columns of the board, walls included.
pub const COLS: usize = 10 + 4 + 4;

/// The board. `0[r][c]` counts the locked cells at row `r`, column `c`;
/// 0 is empty. Rows 0 to 23 and columns 4 to 13 form the playfield (rows 0
/// to 3 of it are hidden, pieces appear there); every other cell is wall.
pub struct Screen(pub [[u8; 18]; 28]);

/// A cell of the playfield, as opposed to the wall around it.
pub open spec fn in_playfield(r: int, c: int) -> bool {
    0 <= r < 24 && 4 <= c < 14
}

/// A cell of the board.
pub open spec fn in_grid(r: int, c: int) -> bool {
    0 <= r < 28 && 0 <= c < 18
}

/// A row shown to the player, the one that can be cleared.
pub open spec fn visible_row(r: int) -> bool {
    4 <= r < 24
}

impl Screen {
    /// The value at row `r`, column `c`.
    pub open spec fn at(self, r: int, c: int) -> u8 {
        self.0[r][c]
    }

    /// Empty playfield framed by walls of value 1: the board a game starts on.
    pub open spec fn is_initial(self) -> bool {
        forall|r: int, c: int|
            in_grid(r, c) ==> #[trigger] self.at(r, c) == (if in_playfield(r, c) {
                0u8
            } else {
                1u8
            })
    }

    /// Every wall cell holds 1.
    pub open spec fn walls_intact(self) -> bool {
        forall|r: int, c: int| in_grid(r, c) && !in_playfield(r, c) ==> #[trigger] self.at(r, c) == 1
    }

    /// Every cell holds 0 or 1.
    pub open spec fn binary(self) -> bool {
        forall|r: int, c: int| in_grid(r, c) ==> #[trigger] self.at(r, c) <= 1
    }

    /// The occupied cells of `m`, placed with its top left corner at
    /// (`pi`, `pj`), all lie on the board.
    pub open spec fn filled_in_bounds(m: Matrix, pi: int, pj: int) -> bool {
        forall|a: int, b: int|
            0 <= a < 4 && 0 <= b < 4 && #[trigger] m[a][b] == 1 ==> in_grid(pi + a, pj + b)
    }

    /// Cell (`a`, `b`) of `m` at (`pi`, `pj`) is occupied, lies on the board
    /// and meets a cell that holds 1.
    pub open spec fn hits(self, m: Matrix, pi: int, pj: int, a: int, b: int) -> bool {
        m[a][b] == 1 && in_grid(pi + a, pj + b) && self.at(pi + a, pj + b) == 1
    }

    /// Cell (`a2`, `b2`) of a matrix comes before cell (`a`, `b`) when the
    /// matrix is read row by row from the top.
    pub open spec fn comes_before(a2: int, b2: int, a: int, b: int) -> bool {
        a2 < a || (a2 == a && b2 < b)
    }

    /// Reading the cells of `m` at (`pi`, `pj`) row by row from the top and
    /// stopping at the first one that meets a cell holding 1, every occupied
    /// cell read lies on the board.
    pub open spec fn scan_in_bounds(self, m: Matrix, pi: int, pj: int) -> bool {
        forall|a: int, b: int|
            0 <= a < 4 && 0 <= b < 4 && #[trigger] m[a][b] == 1 && (forall|a2: int, b2: int|
                0 <= a2 < 4 && 0 <= b2 < 4 && Self::comes_before(a2, b2, a, b) ==> !#[trigger] self.hits(
                    m,
                    pi,
                    pj,
                    a2,
                    b2,
                )) ==> in_grid(pi + a, pj + b)
    }

    /// No occupied cell of `m` at (`pi`, `pj`) that lies on the board meets
    /// a cell that holds 1.
    pub open spec fn fits(self, m: Matrix, pi: int, pj: int) -> bool {
        forall|a: int, b: int|
            0 <= a < 4 && 0 <= b < 4 && #[trigger] m[a][b] == 1 && in_grid(pi + a, pj + b) ==> self.at(
                pi + a,
                pj + b,
            ) != 1
    }

    /// `m` at (`pi`, `pj`) lies wholly on the board and fits there.
    pub open spec fn rests(self, m: Matrix, pi: int, pj: int) -> bool {
        Self::filled_in_bounds(m, pi, pj) && self.fits(m, pi, pj)
    }

    /// The whole 4x4 window at (`pi`, `pj`) lies on the board.
    pub open spec fn window_in_bounds(pi: int, pj: int) -> bool {
        0 <= pi && 0 <= pj && pi + 3 < 28 && pj + 3 < 18
    }

    /// Adding `m` at (`pi`, `pj`) overflows no cell.
    pub open spec fn lock_no_overflow(self, m: Matrix, pi: int, pj: int) -> bool {
        forall|a: int, b: int|
            0 <= a < 4 && 0 <= b < 4 ==> #[trigger] self.at(pi + a, pj + b) + m[a][b] <= 255
    }

    /// What locking adds to cell (`r`, `c`).
    pub open spec fn lock_delta(m: Matrix, pi: int, pj: int, r: int, c: int) -> int {
        if pi <= r < pi + 4 && pj <= c < pj + 4 {
            m[r - pi][c - pj] as int
        } else {
            0
        }
    }

    /// `self` is `old` with `m` added cell by cell at (`pi`, `pj`).
    pub open spec fn is_lock_of(self, old: Screen, m: Matrix, pi: int, pj: int) -> bool {
        forall|r: int, c: int|
            in_grid(r, c) ==> #[trigger] self.at(r, c) == old.at(r, c) + Self::lock_delta(
                m,
                pi,
                pj,
                r,
                c,
            )
    }

    /// `self` is `old` with the playfield emptied and the walls kept.
    pub open spec fn is_reset_of(self, old: Screen) -> bool {
        forall|r: int, c: int|
            in_grid(r, c) ==> #[trigger] self.at(r, c) == (if in_playfield(r, c) {
                0u8
            } else {
                old.at(r, c)
            })
    }

    /// Some cell of row 3, the lowest hidden row, is occupied.
    pub open spec fn spec_top_row_occupied(self) -> bool {
        exists|c: int| 4 <= c < 14 && #[trigger] self.at(3, c) != 0
    }

    /// Every playfield cell of row `r` is occupied.
    pub open spec fn row_full(self, r: int) -> bool {
        forall|c: int| 4 <= c < 14 ==> #[trigger] self.at(r, c) != 0
    }

    /// The full visible rows above row `i`, top to bottom.
    pub open spec fn full_upto(self, i: int) -> Seq<int>
        decreases i - 4,
    {
        if i <= 4 {
            seq![]
        } else if self.row_full(i - 1) {
            self.full_upto(i - 1).push(i - 1)
        } else {
            self.full_upto(i - 1)
        }
    }

    /// The visible rows from row `i` down that are not full, top to bottom.
    pub open spec fn kept_from(self, i: int) -> Seq<int>
        decreases 24 - i,
    {
        if i >= 24 {
            seq![]
        } else if self.row_full(i) {
            self.kept_from(i + 1)
        } else {
            seq![i] + self.kept_from(i + 1)
        }
    }

    /// The full visible rows, top to bottom.
    pub open spec fn full_rows(self) -> Seq<int> {
        self.full_upto(24)
    }

    /// What cell (`r`, `c`) holds once the full rows are removed and the
    /// rows above them have fallen: the visible rows that are not full,
    /// in their order, pushed to the bottom, with empty rows on top.
    pub open spec fn cleared_at(self, r: int, c: int) -> u8 {
        let k = self.full_rows().len() as int;
        if visible_row(r) && 4 <= c < 14 {
            if r < 4 + k {
                0u8
            } else {
                self.at(self.kept_from(4)[r - 4 - k], c)
            }
        } else {
            self.at(r, c)
        }
    }

    /// `self` is `old` after its full rows were cleared.
    pub open spec fn is_clear_of(self, old: Screen) -> bool {
        forall|r: int, c: int| in_grid(r, c) ==> #[trigger] self.at(r, c) == old.cleared_at(r, c)
    }

    /// The board a game starts on: walls of 1 around an empty playfield.
    pub fn new() -> (s: Screen)
        ensures
            s.is_initial(),
    {
        let mut cells: [[u8; 18]; 28] = [[1u8; 18]; 28];
        let mut i: usize = 0;
        while i < 24
            invariant
                i <= 24,
                forall|r: int, c: int|
                    in_grid(r, c) ==> #[trigger] cells[r][c] == (if r < i && 4 <= c < 14 {
                        0u8
                    } else {
                        1u8
                    }),
            decreases 24 - i,
        {
            let mut j: usize = 4;
            while j < 14
                invariant
                    i < 24,
                    4 <= j <= 14,
                    forall|r: int, c: int|
                        in_grid(r, c) ==> #[trigger] cells[r][c] == (if (r < i && 4 <= c < 14) || (r
                            == i && 4 <= c < j) {
                            0u8
                        } else {
                            1u8
                        }),
                decreases 14 - j,
            {
                cells[i][j] = 0;
                j += 1;
            }
            i += 1;
        }
        let s = Screen(cells);
        assert forall|r: int, c: int| in_grid(r, c) implies #[trigger] s.at(r, c) == (if in_playfield(
            r,
            c,
        ) {
            0u8
        } else {
            1u8
        }) by {
            assert(cells[r][c] == s.at(r, c));
        }
        s
    }

    /// Whether `m` fits at (`pi`, `pj`): reading its cells row by row from
    /// the top, none meets a cell that holds 1. The reading stops at the
    /// first one that does.
    pub fn piece_fits(&self, m: &Matrix, pi: usize, pj: usize) -> (ok: bool)
        requires
            self.scan_in_bounds(*m, pi as int, pj as int),
        ensures
            ok == self.fits(*m, pi as int, pj as int),
            ok ==> self.rests(*m, pi as int, pj as int),
    {
        let mut a: usize = 0;
        while a < 4
            invariant
                a <= 4,
                self.scan_in_bounds(*m, pi as int, pj as int),
                forall|x: int, y: int|
                    0 <= x < a && 0 <= y < 4 && #[trigger] m[x][y] == 1 ==> in_grid(pi + x, pj + y)
                        && self.at(pi + x, pj + y) != 1,
            decreases 4 - a,
        {
            let mut b: usize = 0;
            while b < 4
                invariant
                    a < 4,
                    b <= 4,
                    self.scan_in_bounds(*m, pi as int, pj as int),
                    forall|x: int, y: int|
                        ((0 <= x < a && 0 <= y < 4) || (x == a && 0 <= y < b)) && #[trigger] m[x][y]
                            == 1 ==> in_grid(pi + x, pj + y) && self.at(pi + x, pj + y) != 1,
                decreases 4 - b,
            {
                let row = m[a];
                if row[b] == 1 {
                    assert(m[a as int][b as int] == 1);
                    assert forall|a2: int, b2: int|
                        0 <= a2 < 4 && 0 <= b2 < 4 && Self::comes_before(
                            a2,
                            b2,
                            a as int,
                            b as int,
                        ) implies !#[trigger] self.hits(*m, pi as int, pj as int, a2, b2) by {
                        if m[a2][b2] == 1 {
                            assert(in_grid(pi + a2, pj + b2));
                        }
                    }
                    assert(in_grid(pi + a, pj + b));
                    if self.0[pi + a][pj + b] == 1 {
                        assert(self.hits(*m, pi as int, pj as int, a as int, b as int));
                        return false;
                    }
                }
                b += 1;
            }
            a += 1;
        }
        proof {
            assert forall|x: int, y: int|
                0 <= x < 4 && 0 <= y < 4 && #[trigger] m[x][y] == 1 implies in_grid(pi + x, pj + y) by {}
        }
        true
    }

    /// Whether reading the cells of `m` at (`pi`, `pj`) row by row from the
    /// top, up to the first that meets a cell holding 1, stays on the board:
    /// whether `piece_fits` may be asked about this placement.
    pub fn scan_stays_on_board(&self, m: &Matrix, pi: usize, pj: usize) -> (ok: bool)
        ensures
            ok == self.scan_in_bounds(*m, pi as int, pj as int),
    {
        let mut a: usize = 0;
        while a < 4
            invariant
                a <= 4,
                forall|x: int, y: int|
                    0 <= x < a && 0 <= y < 4 && #[trigger] m[x][y] == 1 ==> in_grid(pi + x, pj + y)
                        && self.at(pi + x, pj + y) != 1,
            decreases 4 - a,
        {
            let mut b: usize = 0;
            while b < 4
                invariant
                    a < 4,
                    b <= 4,
                    forall|x: int, y: int|
                        ((0 <= x < a && 0 <= y < 4) || (x == a && 0 <= y < b)) && #[trigger] m[x][y]
                            == 1 ==> in_grid(pi + x, pj + y) && self.at(pi + x, pj + y) != 1,
                decreases 4 - b,
            {
                let row = m[a];
                if row[b] == 1 {
                    assert(m[a as int][b as int] == 1);
                    let ghost earlier_clear = forall|a2: int, b2: int|
                        0 <= a2 < 4 && 0 <= b2 < 4 && Self::comes_before(
                            a2,
                            b2,
                            a as int,
                            b as int,
                        ) ==> !#[trigger] self.hits(*m, pi as int, pj as int, a2, b2);
                    assert(earlier_clear) by {
                        assert forall|a2: int, b2: int|
                            0 <= a2 < 4 && 0 <= b2 < 4 && Self::comes_before(
                                a2,
                                b2,
                                a as int,
                                b as int,
                            ) implies !#[trigger] self.hits(*m, pi as int, pj as int, a2, b2) by {
                            if m[a2][b2] == 1 {
                                assert(in_grid(pi + a2, pj + b2));
                            }
                        }
                    }
                    if pi >= 28 - a || pj >= 18 - b {
                        return false;
                    }
                    if self.0[pi + a][pj + b] == 1 {
                        proof {
                            assert(self.hits(*m, pi as int, pj as int, a as int, b as int));
                            assert forall|x: int, y: int|
                                0 <= x < 4 && 0 <= y < 4 && #[trigger] m[x][y] == 1 && (forall|
                                    a2: int,
                                    b2: int,
                                |
                                    0 <= a2 < 4 && 0 <= b2 < 4 && Self::comes_before(a2, b2, x, y)
                                        ==> !#[trigger] self.hits(*m, pi as int, pj as int, a2, b2))
                                implies in_grid(pi + x, pj + y) by {
                                if !Self::comes_before(x, y, a as int, b as int) && (x != a || y != b) {
                                    assert(Self::comes_before(a as int, b as int, x, y));
                                    assert(!self.hits(*m, pi as int, pj as int, a as int, b as int));
                                }
                            }
                        }
                        return true;
                    }
                }
                b += 1;
            }
            a += 1;
        }
        true
    }

    /// Adds `m` cell by cell into the board at (`pi`, `pj`).
    pub fn lock(&mut self, m: &Matrix, pi: usize, pj: usize)
        requires
            Self::window_in_bounds(pi as int, pj as int),
            old(self).lock_no_overflow(*m, pi as int, pj as int),
        ensures
            final(self).is_lock_of(*old(self), *m, pi as int, pj as int),
    {
        let ghost start = *self;
        let mut a: usize = 0;
        while a < 4
            invariant
                a <= 4,
                Self::window_in_bounds(pi as int, pj as int),
                start.lock_no_overflow(*m, pi as int, pj as int),
                forall|r: int, c: int|
                    in_grid(r, c) ==> #[trigger] self.at(r, c) == start.at(r, c) + (if r < pi + a {
                        Self::lock_delta(*m, pi as int, pj as int, r, c)
                    } else {
                        0
                    }),
            decreases 4 - a,
        {
            let mut b: usize = 0;
            while b < 4
                invariant
                    a < 4,
                    b <= 4,
                    Self::window_in_bounds(pi as int, pj as int),
                    start.lock_no_overflow(*m, pi as int, pj as int),
                    forall|r: int, c: int|
                        in_grid(r, c) ==> #[trigger] self.at(r, c) == start.at(r, c) + (if r < pi + a
                            || (r == pi + a && c < pj + b) {
                            Self::lock_delta(*m, pi as int, pj as int, r, c)
                        } else {
                            0
                        }),
                decreases 4 - b,
            {
                let row = m[a];
                let v = row[b];
                assert(start.at(pi + a, pj + b) + m[a as int][b as int] <= 255);
                assert(self.at(pi + a, pj + b) == start.at(pi + a, pj + b));
                let ghost prev = *self;
                self.0[pi + a][pj + b] = self.0[pi + a][pj + b] + v;
                proof {
                    assert forall|r: int, c: int| in_grid(r, c) && (r != pi + a || c != pj + b) implies
                        #[trigger] self.at(r, c) == prev.at(r, c) by {
                        if r == pi + a {
                            assert(self.0[r]@ == prev.0[r]@.update(pj + b, (prev.at(r, pj + b) + v) as u8));
                        }
                    }
                }
                b += 1;
            }
            a += 1;
        }
    }

    /// Whether row 3, the lowest hidden row, holds an occupied cell.
    pub fn top_row_occupied(&self) -> (occupied: bool)
        ensures
            occupied == self.spec_top_row_occupied(),
    {
        let row = self.0[3];
        let mut c: usize = 4;
        while c < 14
            invariant
                4 <= c <= 14,
                row == self.0[3],
                forall|x: int| 4 <= x < c ==> #[trigger] self.at(3, x) == 0,
            decreases 14 - c,
        {
            if row[c] != 0 {
                assert(self.at(3, c as int) != 0);
                return true;
            }
            c += 1;
        }
        false
    }

    /// Empties the playfield; the walls stay as they are.
    pub fn reset(&mut self)
        ensures
            final(self).is_reset_of(*old(self)),
    {
        let ghost start = *self;
        let mut i: usize = 0;
        while i < 24
            invariant
                i <= 24,
                forall|r: int, c: int|
                    in_grid(r, c) ==> #[trigger] self.at(r, c) == (if r < i && 4 <= c < 14 {
                        0u8
                    } else {
                        start.at(r, c)
                    }),
            decreases 24 - i,
        {
            let mut j: usize = 4;
            while j < 14
                invariant
                    i < 24,
                    4 <= j <= 14,
                    forall|r: int, c: int|
                        in_grid(r, c) ==> #[trigger] self.at(r, c) == (if (r < i && 4 <= c < 14) || (
                        r == i && 4 <= c < j) {
                            0u8
                        } else {
                            start.at(r, c)
                        }),
                decreases 14 - j,
            {
                let ghost prev = *self;
                self.0[i][j] = 0;
                proof {
                    assert forall|r: int, c: int| in_grid(r, c) && (r != i || c != j) implies
                        #[trigger] self.at(r, c) == prev.at(r, c) by {
                        if r == i {
                            assert(self.0[r]@ == prev.0[r]@.update(j as int, 0u8));
                        }
                    }
                }
                j += 1;
            }
            i += 1;
        }
    }

    /// Facts about `full_upto(i)`: its rows are full, lie in `[4, i)`, rise
    /// strictly, and every full row of that range is among them.
    pub proof fn lemma_full_upto(self, i: int)
        requires
            4 <= i <= 24,
        ensures
            self.full_upto(i).len() <= i - 4,
            forall|k: int|
                0 <= k < self.full_upto(i).len() ==> 4 <= #[trigger] self.full_upto(i)[k] < i
                    && self.row_full(self.full_upto(i)[k]),
            forall|k1: int, k2: int|
                0 <= k1 < k2 < self.full_upto(i).len() ==> self.full_upto(i)[k1] < self.full_upto(
                    i,
                )[k2],
            forall|r: int| 4 <= r < i && self.row_full(r) ==> self.full_upto(i).contains(r),
        decreases i - 4,
    {
        if i > 4 {
            self.lemma_full_upto(i - 1);
            let prev = self.full_upto(i - 1);
            if self.row_full(i - 1) {
                assert(self.full_upto(i) == prev.push(i - 1));
                assert forall|r: int| 4 <= r < i && self.row_full(r) implies self.full_upto(
                    i,
                ).contains(r) by {
                    if r == i - 1 {
                        assert(self.full_upto(i)[prev.len() as int] == r);
                    } else {
                        let k = choose|k: int| 0 <= k < prev.len() && prev[k] == r;
                        assert(self.full_upto(i)[k] == r);
                    }
                }
            }
        }
    }

    /// `full_upto(i)` is the beginning of `full_upto(n)` for `i <= n`.
    pub proof fn lemma_full_upto_prefix(self, i: int, n: int)
        requires
            4 <= i <= n <= 24,
        ensures
            self.full_upto(i).len() <= self.full_upto(n).len(),
            self.full_upto(i) == self.full_upto(n).subrange(0, self.full_upto(i).len() as int),
        decreases n - i,
    {
        if i < n {
            self.lemma_full_upto_prefix(i, n - 1);
            if self.row_full(n - 1) {
                assert(self.full_upto(n) == self.full_upto(n - 1).push(n - 1));
            }
            assert(self.full_upto(i) =~= self.full_upto(n).subrange(
                0,
                self.full_upto(i).len() as int,
            ));
        } else {
            assert(self.full_upto(i) =~= self.full_upto(n).subrange(
                0,
                self.full_upto(i).len() as int,
            ));
        }
    }

    /// Facts about `kept_from(i)`: its rows are not full, lie in `[i, 24)`,
    /// rise strictly, and it holds as many rows as `[i, 24)` holds rows
    /// that are not full.
    pub proof fn lemma_kept_from(self, i: int)
        requires
            4 <= i <= 24,
        ensures
            forall|k: int|
                0 <= k < self.kept_from(i).len() ==> i <= #[trigger] self.kept_from(i)[k] < 24
                    && !self.row_full(self.kept_from(i)[k]),
            forall|k1: int, k2: int|
                0 <= k1 < k2 < self.kept_from(i).len() ==> self.kept_from(i)[k1] < self.kept_from(
                    i,
                )[k2],
            self.full_upto(i).len() + (24 - i) - self.kept_from(i).len() == self.full_rows().len(),
        decreases 24 - i,
    {
        if i < 24 {
            self.lemma_kept_from(i + 1);
            let next = self.kept_from(i + 1);
            if !self.row_full(i) {
                assert(self.kept_from(i) == seq![i] + next);
                assert forall|k: int| 0 <= k < self.kept_from(i).len() implies i
                    <= #[trigger] self.kept_from(i)[k] < 24 && !self.row_full(
                    self.kept_from(i)[k],
                ) by {
                    if k > 0 {
                        assert(self.kept_from(i)[k] == next[k - 1]);
                    }
                }
                assert forall|k1: int, k2: int|
                    0 <= k1 < k2 < self.kept_from(i).len() implies self.kept_from(i)[k1]
                    < self.kept_from(i)[k2] by {
                    assert(self.kept_from(i)[k2] == next[k2 - 1]);
                    if k1 > 0 {
                        assert(self.kept_from(i)[k1] == next[k1 - 1]);
                    }
                }
            }
        }
    }

    /// Where no row from `i` down is full, `kept_from(i)` is every row from
    /// `i` down.
    pub proof fn lemma_kept_all(self, i: int)
        requires
            4 <= i <= 24,
            forall|r: int| i <= r < 24 ==> !self.row_full(r),
        ensures
            self.kept_from(i).len() == 24 - i,
            forall|k: int| 0 <= k < 24 - i ==> #[trigger] self.kept_from(i)[k] == i + k,
        decreases 24 - i,
    {
        if i < 24 {
            self.lemma_kept_all(i + 1);
            assert(self.kept_from(i) == seq![i] + self.kept_from(i + 1));
            assert forall|k: int| 0 <= k < 24 - i implies #[trigger] self.kept_from(i)[k] == i + k by {
                if k > 0 {
                    assert(self.kept_from(i)[k] == self.kept_from(i + 1)[k - 1]);
                }
            }
        }
    }

    /// Whether every playfield cell of row `r` is occupied.
    pub fn row_is_full(&self, r: usize) -> (full: bool)
        requires
            r < 28,
        ensures
            full == self.row_full(r as int),
    {
        let row = self.0[r];
        let mut c: usize = 4;
        while c < 14
            invariant
                4 <= c <= 14,
                r < 28,
                row == self.0[r as int],
                forall|x: int| 4 <= x < c ==> #[trigger] self.at(r as int, x) != 0,
            decreases 14 - c,
        {
            if row[c] == 0 {
                assert(self.at(r as int, c as int) == 0);
                return false;
            }
            c += 1;
        }
        true
    }

    /// The full visible rows, top to bottom.
    pub fn find_full_rows(&self) -> (rows: Vec<usize>)
        ensures
            rows@.len() == self.full_rows().len(),
            forall|k: int| 0 <= k < rows@.len() ==> #[trigger] rows@[k] as int == self.full_rows()[k],
    {
        let mut rows: Vec<usize> = Vec::new();
        let mut i: usize = 4;
        while i < 24
            invariant
                4 <= i <= 24,
                rows@.len() == self.full_upto(i as int).len(),
                forall|k: int|
                    0 <= k < rows@.len() ==> #[trigger] rows@[k] as int == self.full_upto(i as int)[k],
            decreases 24 - i,
        {
            proof {
                self.lemma_full_upto(i as int);
            }
            if self.row_is_full(i) {
                rows.push(i);
                assert(self.full_upto(i + 1) == self.full_upto(i as int).push(i as int));
            }
            i += 1;
        }
        rows
    }

    /// Removes the full visible rows; the rows above each one fall to close
    /// the gap and empty rows come in at the top. Returns how many rows went.
    pub fn clear_full_rows(&mut self) -> (cleared: usize)
        ensures
            cleared == old(self).full_rows().len(),
            final(self).is_clear_of(*old(self)),
            cleared == 0 ==> *final(self) == *old(self),
    {
        let ghost start = *self;
        let rows = self.find_full_rows();
        let total = rows.len();
        if total == 0 {
            proof {
                start.lemma_full_upto(24);
                start.lemma_kept_all(4);
                assert forall|r: int, c: int| in_grid(r, c) implies #[trigger] self.at(r, c)
                    == start.cleared_at(r, c) by {
                    if visible_row(r) && 4 <= c < 14 {
                        assert(start.kept_from(4)[r - 4] == r);
                    }
                }
            }
            return 0;
        }
        proof {
            start.lemma_full_upto(24);
            start.lemma_kept_from(24);
        }
        let mut amount = total;
        let mut elim: usize = 0;
        let mut i: usize = 24;
        while i > 4
            invariant
                4 <= i <= 24,
                total == rows@.len(),
                total == start.full_rows().len(),
                forall|k: int| 0 <= k < rows@.len() ==> #[trigger] rows@[k] as int == start.full_rows()[k],
                amount == start.full_upto(i as int).len(),
                amount + elim == total,
                elim == (24 - i) - start.kept_from(i as int).len(),
                forall|r: int, c: int|
                    in_grid(r, c) && (r < i || !(4 <= c < 14) || r >= 24) ==> #[trigger] self.at(r, c)
                        == start.at(r, c),
                forall|r: int, c: int|
                    i + elim <= r < 24 && 4 <= c < 14 ==> #[trigger] self.at(r, c) == start.at(
                        start.kept_from(i as int)[r - i - elim],
                        c,
                    ),
            decreases i,
        {
            i -= 1;
            proof {
                start.lemma_full_upto(i as int);
                start.lemma_full_upto(i + 1);
                start.lemma_full_upto_prefix(i + 1, 24);
                start.lemma_kept_from(i as int);
                start.lemma_kept_from(i + 1);
            }
            if amount == 0 || (amount > 0 && i != rows[amount - 1]) {
                proof {
                    if start.row_full(i as int) {
                        assert(start.full_upto(i + 1) == start.full_upto(i as int).push(i as int));
                        assert(rows@[amount - 1] as int == start.full_upto(i + 1)[amount - 1]);
                        assert(false);
                    }
                    assert(start.kept_from(i as int) == seq![i as int] + start.kept_from(i + 1));
                }
                let ghost before = *self;
                let mut j: usize = 4;
                while j < 14
                    invariant
                        4 <= i < 24,
                        i + elim < 24,
                        4 <= j <= 14,
                        forall|r: int, c: int|
                            in_grid(r, c) && !(r == i + elim && 4 <= c < j) ==> #[trigger] self.at(r, c)
                                == before.at(r, c),
                        forall|c: int| 4 <= c < j ==> #[trigger] self.at(i + elim, c) == before.at(i as int, c),
                        forall|c: int| 0 <= c < 18 ==> #[trigger] before.at(i as int, c) == start.at(i as int, c),
                    decreases 14 - j,
                {
                    let ghost prev = *self;
                    assert(self.at(i as int, j as int) == before.at(i as int, j as int));
                    let v = self.0[i][j];
                    self.0[i + elim][j] = v;
                    proof {
                        assert forall|r: int, c: int|
                            in_grid(r, c) && (r != i + elim || c != j) implies #[trigger] self.at(r, c)
                            == prev.at(r, c) by {
                            if r == i + elim {
                                assert(self.0[r]@ == prev.0[r]@.update(j as int, v));
                            }
                        }
                    }
                    j += 1;
                }
            } else {
                proof {
                    if !start.row_full(i as int) {
                        assert(start.full_upto(i + 1) == start.full_upto(i as int));
                        assert(rows@[amount - 1] as int == start.full_upto(i + 1)[amount - 1]);
                        assert(false);
                    }
                    assert(start.full_upto(i + 1) == start.full_upto(i as int).push(i as int));
                }
                amount -= 1;
                elim += 1;
            }
        }
        proof {
            start.lemma_kept_from(4);
            start.lemma_full_upto(24);
        }
        let mut i: usize = 4;
        while i < 4 + total
            invariant
                4 <= i <= 4 + total,
                total == start.full_rows().len(),
                total <= 20,
                forall|r: int, c: int|
                    in_grid(r, c) && !(4 <= r < i && 4 <= c < 14) && !(i <= r < 4 + total && 4 <= c < 14)
                        ==> #[trigger] self.at(r, c) == start.cleared_at(r, c),
                forall|r: int, c: int| 4 <= r < i && 4 <= c < 14 ==> #[trigger] self.at(r, c) == 0,
            decreases 4 + total - i,
        {
            let mut j: usize = 4;
            while j < 14
                invariant
                    4 <= i < 4 + total,
                    total <= 20,
                    4 <= j <= 14,
                    forall|r: int, c: int|
                        in_grid(r, c) && !(4 <= r < i && 4 <= c < 14) && !(i <= r < 4 + total && 4 <= c
                            < 14) ==> #[trigger] self.at(r, c) == start.cleared_at(r, c),
                    forall|r: int, c: int|
                        ((4 <= r < i && 4 <= c < 14) || (r == i && 4 <= c < j)) ==> #[trigger] self.at(
                            r,
                            c,
                        ) == 0,
                decreases 14 - j,
            {
                let ghost prev = *self;
                self.0[i][j] = 0;
                proof {
                    assert forall|r: int, c: int|
                        in_grid(r, c) && (r != i || c != j) implies #[trigger] self.at(r, c) == prev.at(
                        r,
                        c,
                    ) by {
                        if r == i {
                            assert(self.0[r]@ == prev.0[r]@.update(j as int, 0u8));
                        }
                    }
                }
                j += 1;
            }
            i += 1;
        }
        total
    }
}

} // verus!
