//! The falling piece, the preview of the next one, the score, and the
//! decisions each frame of play takes on them.

use vstd::prelude::*;
use rand::Rng;
use crate::board::Screen;
use crate::shapes::{Matrix, shape_matrix, spec_shape, valid_piece, next_orientation};
use crate::laws::lemma_resting_piece_in_playfield;

verus! {

/// The falling piece: whether one is in play, the board position of the
/// top left corner of its 4x4 matrix, its kind and its orientation.
pub struct Block {
    pub exists: bool,
    pub i: usize,
    pub j: usize,
    pub type_id: usize,
    pub shape_id: usize,
}

/// The piece that comes after the falling one.
pub struct NextBlock {
    pub type_id: usize,
    pub shape_id: usize,
}

/// The player's score.
pub struct Scoreboard {
    pub score: usize,
}

/// Which screen the game shows.
#[derive(Clone, Copy, Debug, PartialEq, Eq, Hash, Structural)]
pub enum AppState {
    InGame,
    Menu,
    GameOver,
}

/// What a drop step did with the falling piece.
#[derive(Clone, Copy, Debug, PartialEq, Eq, Structural)]
pub enum DropOutcome {
    /// The piece moved down to the new row.
    Fell,
    /// The piece could not move and was locked into the board.
    Landed,
    /// The piece was locked and the board now reaches the hidden rows:
    /// the game is over.
    ToppedOut,
}

/// How a player touches a menu button.
#[derive(Clone, Copy, Debug, PartialEq, Eq, Structural)]
pub enum ButtonInteraction {
    Clicked,
    Hovered,
    Untouched,
}

/// How a menu button is drawn.
#[derive(Clone, Copy, Debug, PartialEq, Eq, Structural)]
pub enum ButtonLook {
    Normal,
    Hovered,
    Pressed,
}

/// What a menu does when its button is touched.
#[derive(Clone, Copy, Debug, PartialEq, Eq, Structural)]
pub struct MenuResponse {
    pub look: ButtonLook,
    pub start_game: bool,
}

/// Something that changes which screen the game shows.
#[derive(Clone, Copy, Debug, PartialEq, Eq, Structural)]
pub enum GameEvent {
    /// The menu button was clicked.
    ButtonClicked,
    /// The escape key was released.
    EscapeReleased,
    /// A drop step topped the board out.
    ToppedOut,
}

/// Points for the rows cleared at once, beyond 5 per row.
pub const BOUNS: [usize; 4] = [0, 4, 9, 16];

/// The matrix of the falling piece.
pub open spec fn block_matrix(block: Block) -> Matrix {
    spec_shape(block.type_id as int, block.shape_id as int)
}

/// The piece names an entry of the library.
pub open spec fn block_valid(block: Block) -> bool {
    valid_piece(block.type_id as int, block.shape_id as int)
}

/// The preview names an entry of the library.
pub open spec fn next_valid(next: NextBlock) -> bool {
    valid_piece(next.type_id as int, next.shape_id as int)
}

/// Row `r` of `m` holds an occupied cell.
pub open spec fn row_occupied(m: Matrix, r: int) -> bool {
    exists|c: int| 0 <= c < 4 && #[trigger] m[r][c] == 1
}

/// The lowest row of `m` with an occupied cell, or 5 if there is none.
pub open spec fn last_occupied_row(m: Matrix) -> int {
    if row_occupied(m, 3) {
        3
    } else if row_occupied(m, 2) {
        2
    } else if row_occupied(m, 1) {
        1
    } else if row_occupied(m, 0) {
        0
    } else {
        5
    }
}

/// The highest row of `m` with an occupied cell, or 5 if there is none.
pub open spec fn first_occupied_row(m: Matrix) -> int {
    if row_occupied(m, 0) {
        0
    } else if row_occupied(m, 1) {
        1
    } else if row_occupied(m, 2) {
        2
    } else if row_occupied(m, 3) {
        3
    } else {
        5
    }
}

/// How many rows `m` spans from its highest to its lowest occupied row
/// (1 for an empty matrix).
pub open spec fn spec_piece_height(m: Matrix) -> int {
    last_occupied_row(m) + 1 - first_occupied_row(m)
}

/// The row a new piece of matrix `m` appears at: its lowest occupied row
/// lands on row 3, the lowest hidden row.
pub open spec fn spawn_row(m: Matrix) -> int {
    3 + 1 - spec_piece_height(m)
}

/// Points for clearing `k` rows at once.
pub open spec fn line_points(k: int) -> int {
    if k == 0 {
        0
    } else {
        k * 5 + BOUNS[k - 1] as int
    }
}

/// Whether row `r` of `m` holds an occupied cell.
fn row_has_cell(m: &Matrix, r: usize) -> (occupied: bool)
    requires
        r < 4,
    ensures
        occupied == row_occupied(*m, r as int),
{
    let row = m[r];
    let mut c: usize = 0;
    while c < 4
        invariant
            c <= 4,
            r < 4,
            row == m[r as int],
            forall|x: int| 0 <= x < c ==> #[trigger] m[r as int][x] != 1,
        decreases 4 - c,
    {
        if row[c] == 1 {
            assert(m[r as int][c as int] == 1);
            return true;
        }
        c += 1;
    }
    false
}

/// How many rows `m` spans from its highest to its lowest occupied row
/// (1 for an empty matrix).
pub fn piece_height(m: &Matrix) -> (height: usize)
    ensures
        height == spec_piece_height(*m),
        1 <= height <= 4,
{
    let mut first: usize = 5;
    let mut second: usize = 5;
    let mut i: usize = 4;
    while i > 0
        invariant
            i <= 4,
            second == 5 ==> forall|r: int| i <= r < 4 ==> !row_occupied(*m, r),
            second != 5 ==> i <= second < 4 && row_occupied(*m, second as int) && forall|r: int|
                second < r < 4 ==> !row_occupied(*m, r),
            first != 5 ==> second != 5 && i <= first < second && row_occupied(*m, first as int)
                && forall|r: int| i <= r < first ==> !row_occupied(*m, r),
            first == 5 && second != 5 ==> forall|r: int| i <= r < second ==> !row_occupied(*m, r),
        decreases i,
    {
        i -= 1;
        if row_has_cell(m, i) {
            if second == 5 {
                second = i;
            } else {
                first = i;
            }
        }
    }
    if first == 5 {
        first = second;
    }
    second + 1 - first
}

/// A number below `bound`, drawn at random.
///
/// Calls `rand::thread_rng().gen_range(0..bound)`. rand documents that the
/// result lies in `[0, bound)` and that an empty range panics; the contract
/// claims that much and nothing of which number comes.
#[verifier::external_body]
fn random_below(bound: usize) -> (r: usize)
    requires
        bound > 0,
    ensures
        r < bound,
{
    rand::thread_rng().gen_range(0..bound)
}

/// A kind and an orientation drawn at random: the next piece.
pub fn random_piece() -> (next: NextBlock)
    ensures
        next_valid(next),
{
    let type_id = random_below(7);
    let shape_id = random_below(4);
    NextBlock { type_id, shape_id }
}

/// Brings the previewed piece into play when none is falling, and takes
/// `new_type`, `new_shape` as the piece to preview after it. Returns
/// whether a piece was brought in.
pub fn spawn_block(block: &mut Block, next: &mut NextBlock, new_type: usize, new_shape: usize) -> (spawned: bool)
    requires
        !old(block).exists ==> next_valid(*old(next)),
    ensures
        spawned == !old(block).exists,
        !spawned ==> *final(block) == *old(block) && *final(next) == *old(next),
        spawned ==> {
            &&& final(block).exists
            &&& final(block).type_id == old(next).type_id
            &&& final(block).shape_id == old(next).shape_id
            &&& final(block).i == spawn_row(block_matrix(*final(block)))
            &&& final(block).j == 7
            &&& final(next).type_id == new_type
            &&& final(next).shape_id == new_shape
        },
{
    if !block.exists {
        block.type_id = next.type_id;
        block.shape_id = next.shape_id;
        next.type_id = new_type;
        next.shape_id = new_shape;
        let m = shape_matrix(block.type_id, block.shape_id);
        let height = piece_height(&m);
        block.i = 3 + 1 - height;
        block.j = 3 + 4;
        block.exists = true;
        true
    } else {
        false
    }
}

/// When no piece is falling, brings the previewed one into play and draws
/// the next preview at random. Returns whether a piece was brought in.
pub fn block_spawn(block: &mut Block, next: &mut NextBlock) -> (spawned: bool)
    requires
        !old(block).exists ==> next_valid(*old(next)),
    ensures
        spawned == !old(block).exists,
        !spawned ==> *final(block) == *old(block) && *final(next) == *old(next),
        spawned ==> {
            &&& final(block).exists
            &&& final(block).type_id == old(next).type_id
            &&& final(block).shape_id == old(next).shape_id
            &&& final(block).i == spawn_row(block_matrix(*final(block)))
            &&& final(block).j == 7
            &&& next_valid(*final(next))
        },
{
    if !block.exists {
        let drawn = random_piece();
        spawn_block(block, next, drawn.type_id, drawn.shape_id)
    } else {
        false
    }
}

/// One drop step: the falling piece moves to row `new_i` if it fits there;
/// otherwise it is locked into the board where it is, stops falling, and
/// the game is over if row 3 now holds an occupied cell.
pub fn block_drop(screen: &mut Screen, block: &mut Block, new_i: usize) -> (outcome: DropOutcome)
    requires
        block_valid(*old(block)),
        old(screen).scan_in_bounds(block_matrix(*old(block)), new_i as int, old(block).j as int),
        !old(screen).fits(block_matrix(*old(block)), new_i as int, old(block).j as int) ==> {
            &&& Screen::window_in_bounds(old(block).i as int, old(block).j as int)
            &&& old(screen).lock_no_overflow(
                block_matrix(*old(block)),
                old(block).i as int,
                old(block).j as int,
            )
        },
    ensures
        final(block).j == old(block).j,
        final(block).type_id == old(block).type_id,
        final(block).shape_id == old(block).shape_id,
        old(screen).fits(block_matrix(*old(block)), new_i as int, old(block).j as int) ==> {
            &&& outcome == DropOutcome::Fell
            &&& *final(screen) == *old(screen)
            &&& final(block).i == new_i
            &&& final(block).exists == old(block).exists
            &&& final(screen).rests(block_matrix(*final(block)), new_i as int, final(block).j as int)
        },
        !old(screen).fits(block_matrix(*old(block)), new_i as int, old(block).j as int) ==> {
            &&& final(screen).is_lock_of(
                *old(screen),
                block_matrix(*old(block)),
                old(block).i as int,
                old(block).j as int,
            )
            &&& final(block).i == old(block).i
            &&& !final(block).exists
            &&& outcome == (if final(screen).spec_top_row_occupied() {
                DropOutcome::ToppedOut
            } else {
                DropOutcome::Landed
            })
        },
{
    let m = shape_matrix(block.type_id, block.shape_id);
    if screen.piece_fits(&m, new_i, block.j) {
        block.i = new_i;
        DropOutcome::Fell
    } else {
        screen.lock(&m, block.i, block.j);
        block.exists = false;
        if screen.top_row_occupied() {
            DropOutcome::ToppedOut
        } else {
            DropOutcome::Landed
        }
    }
}

/// Moves the falling piece sideways to column `new_j` if it fits there.
/// Returns whether it moved.
pub fn block_move(screen: &Screen, block: &mut Block, new_j: usize) -> (moved: bool)
    requires
        block_valid(*old(block)),
        screen.scan_in_bounds(block_matrix(*old(block)), old(block).i as int, new_j as int),
    ensures
        moved == screen.fits(block_matrix(*old(block)), old(block).i as int, new_j as int),
        moved ==> screen.rests(block_matrix(*final(block)), final(block).i as int, new_j as int),
        moved && screen.walls_intact() ==> 4 <= final(block).j <= 13,
        final(block).j == (if moved { new_j } else { old(block).j }),
        final(block).i == old(block).i,
        final(block).exists == old(block).exists,
        final(block).type_id == old(block).type_id,
        final(block).shape_id == old(block).shape_id,
{
    let m = shape_matrix(block.type_id, block.shape_id);
    if screen.piece_fits(&m, block.i, new_j) {
        block.j = new_j;
        proof {
            if screen.walls_intact() {
                lemma_resting_piece_in_playfield(
                    *screen,
                    block.type_id as int,
                    block.shape_id as int,
                    block.i as int,
                    new_j as int,
                );
            }
        }
        true
    } else {
        false
    }
}

/// Turns the falling piece to its next orientation if that fits where the
/// piece is. Returns whether it turned.
pub fn block_rotate(screen: &Screen, block: &mut Block) -> (rotated: bool)
    requires
        block_valid(*old(block)),
        screen.scan_in_bounds(
            spec_shape(old(block).type_id as int, next_orientation(old(block).shape_id as int)),
            old(block).i as int,
            old(block).j as int,
        ),
    ensures
        rotated == screen.fits(
            spec_shape(old(block).type_id as int, next_orientation(old(block).shape_id as int)),
            old(block).i as int,
            old(block).j as int,
        ),
        rotated ==> screen.rests(block_matrix(*final(block)), final(block).i as int, final(block).j as int),
        final(block).shape_id == (if rotated {
            next_orientation(old(block).shape_id as int)
        } else {
            old(block).shape_id as int
        }),
        final(block).i == old(block).i,
        final(block).j == old(block).j,
        final(block).exists == old(block).exists,
        final(block).type_id == old(block).type_id,
{
    let m = shape_matrix(block.type_id, (block.shape_id + 1) % 4);
    if screen.piece_fits(&m, block.i, block.j) {
        block.shape_id = (block.shape_id + 1) % 4;
        true
    } else {
        false
    }
}

/// Clears the full rows and scores them: 5 points a row and a bonus of
/// 0, 4, 9 or 16 for clearing 1, 2, 3 or 4 rows at once. Returns how many
/// rows were cleared.
pub fn judge(scoreboard: &mut Scoreboard, screen: &mut Screen) -> (cleared: usize)
    requires
        old(screen).full_rows().len() <= 4,
        old(scoreboard).score + line_points(old(screen).full_rows().len() as int) <= usize::MAX,
    ensures
        cleared == old(screen).full_rows().len(),
        final(screen).is_clear_of(*old(screen)),
        cleared == 0 ==> *final(screen) == *old(screen),
        final(scoreboard).score == old(scoreboard).score + line_points(cleared as int),
{
    let cleared = screen.clear_full_rows();
    if cleared > 0 {
        scoreboard.score = scoreboard.score + (cleared * 5 + BOUNS[cleared - 1]);
    }
    cleared
}

/// Whether the board cell at row `i`, column `j` is drawn occupied: it
/// holds a locked cell, or the falling piece covers it.
pub fn screen_cell_shown(screen: &Screen, block: &Block, i: usize, j: usize) -> (shown: bool)
    requires
        i < 28,
        j < 18,
        block_valid(*block),
    ensures
        shown == (screen.at(i as int, j as int) != 0 || (block.i <= i <= block.i + 3 && block.j <= j
            <= block.j + 3 && block_matrix(*block)[i - block.i][j - block.j] == 1)),
{
    let m = shape_matrix(block.type_id, block.shape_id);
    let mut shown = screen.0[i][j] != 0;
    if i >= block.i && i - block.i <= 3 && j >= block.j && j - block.j <= 3 {
        let row = m[i - block.i];
        if row[j - block.j] == 1 {
            shown = true;
        }
    }
    shown
}

/// Whether cell (`i`, `j`) of the preview is drawn occupied.
pub fn preview_cell_shown(next: &NextBlock, i: usize, j: usize) -> (shown: bool)
    requires
        i < 4,
        j < 4,
        next_valid(*next),
    ensures
        shown == (spec_shape(next.type_id as int, next.shape_id as int)[i as int][j as int] != 0),
{
    let m = shape_matrix(next.type_id, next.shape_id);
    let row = m[i];
    row[j] != 0
}

/// Starts over: score 0, empty playfield, no falling piece, and
/// `new_type`, `new_shape` as the preview.
pub fn reset_game(
    scoreboard: &mut Scoreboard,
    screen: &mut Screen,
    block: &mut Block,
    next: &mut NextBlock,
    new_type: usize,
    new_shape: usize,
)
    ensures
        final(scoreboard).score == 0,
        final(screen).is_reset_of(*old(screen)),
        !final(block).exists,
        final(block).i == old(block).i,
        final(block).j == old(block).j,
        final(block).type_id == old(block).type_id,
        final(block).shape_id == old(block).shape_id,
        final(next).type_id == new_type,
        final(next).shape_id == new_shape,
{
    scoreboard.score = 0;
    screen.reset();
    block.exists = false;
    next.type_id = new_type;
    next.shape_id = new_shape;
}

/// Starts over with a preview drawn at random.
pub fn clear_game(scoreboard: &mut Scoreboard, screen: &mut Screen, block: &mut Block, next: &mut NextBlock)
    ensures
        final(scoreboard).score == 0,
        final(screen).is_reset_of(*old(screen)),
        !final(block).exists,
        final(block).i == old(block).i,
        final(block).j == old(block).j,
        final(block).type_id == old(block).type_id,
        final(block).shape_id == old(block).shape_id,
        next_valid(*final(next)),
{
    let drawn = random_piece();
    reset_game(scoreboard, screen, block, next, drawn.type_id, drawn.shape_id);
}

/// What a menu button shows, and whether the game starts, for how the
/// player touches it.
pub fn menu_response(interaction: ButtonInteraction) -> (response: MenuResponse)
    ensures
        response.look == (match interaction {
            ButtonInteraction::Clicked => ButtonLook::Pressed,
            ButtonInteraction::Hovered => ButtonLook::Hovered,
            ButtonInteraction::Untouched => ButtonLook::Normal,
        }),
        response.start_game == (interaction == ButtonInteraction::Clicked),
{
    match interaction {
        ButtonInteraction::Clicked => MenuResponse { look: ButtonLook::Pressed, start_game: true },
        ButtonInteraction::Hovered => MenuResponse { look: ButtonLook::Hovered, start_game: false },
        ButtonInteraction::Untouched => MenuResponse { look: ButtonLook::Normal, start_game: false },
    }
}

/// The screen shown after `event` happens on screen `state`: a click on
/// the menu or game-over button starts play, escape during play opens the
/// menu, topping out ends the game; any other event changes nothing.
pub fn next_app_state(state: AppState, event: GameEvent) -> (next: AppState)
    ensures
        next == (match (state, event) {
            (AppState::Menu, GameEvent::ButtonClicked) => AppState::InGame,
            (AppState::GameOver, GameEvent::ButtonClicked) => AppState::InGame,
            (AppState::InGame, GameEvent::EscapeReleased) => AppState::Menu,
            (AppState::InGame, GameEvent::ToppedOut) => AppState::GameOver,
            _ => state,
        }),
{
    match (state, event) {
        (AppState::Menu, GameEvent::ButtonClicked) => AppState::InGame,
        (AppState::GameOver, GameEvent::ButtonClicked) => AppState::InGame,
        (AppState::InGame, GameEvent::EscapeReleased) => AppState::Menu,
        (AppState::InGame, GameEvent::ToppedOut) => AppState::GameOver,
        _ => state,
    }
}

} // verus!
