use tetris::board::Screen;
use tetris::game::{
    block_drop, block_move, block_rotate, block_spawn, clear_game, judge, menu_response,
    next_app_state, piece_height, preview_cell_shown, random_piece, reset_game,
    screen_cell_shown, spawn_block, AppState, Block, ButtonInteraction, ButtonLook,
    DropOutcome, GameEvent, NextBlock, Scoreboard,
};
use tetris::shapes::{shape_matrix, L1, L2, S1, W1, Z12};

fn block(type_id: usize, shape_id: usize, i: usize, j: usize) -> Block {
    Block { exists: true, i, j, type_id, shape_id }
}

fn fill_row(s: &mut Screen, r: usize) {
    for c in 4..14 {
        s.0[r][c] = 1;
    }
}

#[test]
fn piece_heights() {
    assert_eq!(piece_height(&L1), 1);
    assert_eq!(piece_height(&L2), 4);
    assert_eq!(piece_height(&S1), 2);
    assert_eq!(piece_height(&Z12), 3);
    assert_eq!(piece_height(&[[0; 4]; 4]), 1);
    assert_eq!(piece_height(&[[0, 0, 0, 0], [0, 1, 0, 0], [0, 0, 0, 0], [0, 0, 0, 0]]), 1);
}

#[test]
fn spawn_brings_in_the_preview() {
    let mut b = Block { exists: false, i: 6, j: 6, type_id: 1, shape_id: 1 };
    let mut n = NextBlock { type_id: 0, shape_id: 1 };
    assert!(spawn_block(&mut b, &mut n, 4, 2));
    assert!(b.exists);
    assert_eq!((b.type_id, b.shape_id), (0, 1));
    // the vertical bar spans four rows: it appears at row 0
    assert_eq!(b.i, 0);
    assert_eq!(b.j, 7);
    assert_eq!((n.type_id, n.shape_id), (4, 2));
    // with a piece falling nothing happens
    assert!(!spawn_block(&mut b, &mut n, 2, 2));
    assert_eq!((n.type_id, n.shape_id), (4, 2));
    assert_eq!((b.i, b.j, b.type_id, b.shape_id), (0, 7, 0, 1));
}

#[test]
fn spawn_row_puts_the_lowest_cell_on_row_three() {
    let mut b = Block { exists: false, i: 6, j: 6, type_id: 1, shape_id: 1 };
    let mut n = NextBlock { type_id: 0, shape_id: 0 };
    spawn_block(&mut b, &mut n, 5, 0);
    assert_eq!(b.i, 3);
    b.exists = false;
    spawn_block(&mut b, &mut n, 0, 0);
    // kind 5 orientation 0 spans three rows
    assert_eq!(b.i, 1);
}

#[test]
fn random_draws_stay_in_the_library() {
    let mut kinds = [false; 7];
    for _ in 0..2000 {
        let n = random_piece();
        assert!(n.type_id < 7);
        assert!(n.shape_id < 4);
        kinds[n.type_id] = true;
    }
    assert!(kinds.iter().filter(|&&k| k).count() > 1);
}

#[test]
fn block_spawn_draws_a_valid_preview() {
    let mut b = Block { exists: false, i: 6, j: 6, type_id: 1, shape_id: 1 };
    let mut n = NextBlock { type_id: 3, shape_id: 1 };
    assert!(block_spawn(&mut b, &mut n));
    assert_eq!((b.type_id, b.shape_id, b.i, b.j), (3, 1, 1, 7));
    assert!(n.type_id < 7 && n.shape_id < 4);
    assert!(!block_spawn(&mut b, &mut n));
}

#[test]
fn drop_falls_when_it_fits() {
    let mut s = Screen::new();
    let mut b = block(1, 0, 5, 7);
    assert_eq!(block_drop(&mut s, &mut b, 6), DropOutcome::Fell);
    assert_eq!(b.i, 6);
    assert!(b.exists);
    assert_eq!(s.0, Screen::new().0);
}

#[test]
fn drop_lands_on_the_floor() {
    let mut s = Screen::new();
    let mut b = block(1, 0, 22, 7);
    assert_eq!(block_drop(&mut s, &mut b, 23), DropOutcome::Landed);
    assert!(!b.exists);
    assert_eq!(b.i, 22);
    assert_eq!(s.0[22][7], 1);
    assert_eq!(s.0[23][8], 1);
    assert_eq!(s.0[21][7], 0);
}

#[test]
fn drop_tops_out_when_row_three_fills() {
    let mut s = Screen::new();
    fill_row(&mut s, 4);
    s.0[4][4] = 0;
    let mut b = block(1, 0, 2, 7);
    assert_eq!(block_drop(&mut s, &mut b, 3), DropOutcome::ToppedOut);
    assert_eq!(s.0[3][7], 1);
    assert!(!b.exists);
}

#[test]
fn move_sideways_stops_at_walls_and_cells() {
    let mut s = Screen::new();
    let mut b = block(0, 0, 10, 7);
    assert!(block_move(&s, &mut b, 10));
    assert_eq!(b.j, 10);
    assert!(!block_move(&s, &mut b, 11));
    assert_eq!(b.j, 10);
    s.0[10][5] = 1;
    assert!(!block_move(&s, &mut b, 4));
    assert_eq!(b.j, 10);
    assert!(block_move(&s, &mut b, 6));
    assert_eq!(b.j, 6);
}

#[test]
fn rotate_turns_when_the_next_orientation_fits() {
    let s = Screen::new();
    let mut b = block(4, 3, 10, 7);
    assert!(block_rotate(&s, &mut b));
    assert_eq!(b.shape_id, 0);
    // the vertical bar next to the right wall cannot lie down
    let mut bar = block(0, 1, 10, 13);
    assert!(!block_rotate(&s, &mut bar));
    assert_eq!(bar.shape_id, 1);
    // four turns come back round
    let mut w = block(4, 1, 10, 7);
    for _ in 0..4 {
        assert!(block_rotate(&s, &mut w));
    }
    assert_eq!(w.shape_id, 1);
}

#[test]
fn judge_scores_each_count_of_rows() {
    let expected = [(1, 5), (2, 14), (3, 24), (4, 36)];
    for (rows, points) in expected {
        let mut s = Screen::new();
        for r in 0..rows {
            fill_row(&mut s, 23 - r);
        }
        s.0[23 - rows][6] = 1;
        let mut sb = Scoreboard { score: 100 };
        assert_eq!(judge(&mut sb, &mut s), rows);
        assert_eq!(sb.score, 100 + points);
        assert_eq!(s.0[23][6], 1);
        assert!(s.find_full_rows().is_empty());
    }
}

#[test]
fn judge_without_full_rows_changes_nothing() {
    let mut s = Screen::new();
    s.0[23][6] = 1;
    let mut sb = Scoreboard { score: 7 };
    assert_eq!(judge(&mut sb, &mut s), 0);
    assert_eq!(sb.score, 7);
    assert_eq!(s.0[23][6], 1);
}

#[test]
fn landing_then_judging_stays_within_four_rows() {
    let mut s = Screen::new();
    for r in 20..24 {
        fill_row(&mut s, r);
        s.0[r][13] = 0;
    }
    let mut b = block(0, 1, 20, 13);
    assert_eq!(block_drop(&mut s, &mut b, 21), DropOutcome::Landed);
    let mut sb = Scoreboard { score: 0 };
    assert_eq!(judge(&mut sb, &mut s), 4);
    assert_eq!(sb.score, 36);
    assert_eq!(s.0, Screen::new().0);
}

#[test]
fn render_shows_locked_cells_and_the_falling_piece() {
    let mut s = Screen::new();
    s.0[23][4] = 1;
    let b = block(4, 0, 10, 7);
    assert!(screen_cell_shown(&s, &b, 23, 4));
    assert!(screen_cell_shown(&s, &b, 10, 8));
    assert!(!screen_cell_shown(&s, &b, 10, 7));
    assert!(screen_cell_shown(&s, &b, 11, 9));
    assert!(!screen_cell_shown(&s, &b, 12, 8));
    assert!(!screen_cell_shown(&s, &b, 5, 5));
    // walls are drawn occupied
    assert!(screen_cell_shown(&s, &b, 5, 3));
    // the piece is drawn even when none is falling
    let gone = Block { exists: false, ..b };
    assert!(screen_cell_shown(&s, &gone, 10, 8));
}

#[test]
fn preview_shows_the_next_piece() {
    let n = NextBlock { type_id: 4, shape_id: 0 };
    assert!(preview_cell_shown(&n, 0, 1));
    assert!(!preview_cell_shown(&n, 0, 0));
    assert!(preview_cell_shown(&n, 1, 2));
    assert!(!preview_cell_shown(&n, 2, 1));
    assert_eq!(W1, shape_matrix(4, 0));
}

#[test]
fn reset_starts_over() {
    let mut s = Screen::new();
    fill_row(&mut s, 23);
    s.0[3][5] = 1;
    let mut sb = Scoreboard { score: 55 };
    let mut b = block(2, 1, 12, 9);
    let mut n = NextBlock { type_id: 1, shape_id: 1 };
    reset_game(&mut sb, &mut s, &mut b, &mut n, 6, 3);
    assert_eq!(sb.score, 0);
    assert_eq!(s.0, Screen::new().0);
    assert!(!b.exists);
    assert_eq!((b.i, b.j, b.type_id, b.shape_id), (12, 9, 2, 1));
    assert_eq!((n.type_id, n.shape_id), (6, 3));
}

#[test]
fn clear_game_draws_a_valid_preview() {
    let mut s = Screen::new();
    fill_row(&mut s, 22);
    let mut sb = Scoreboard { score: 9 };
    let mut b = block(2, 1, 12, 9);
    let mut n = NextBlock { type_id: 1, shape_id: 1 };
    clear_game(&mut sb, &mut s, &mut b, &mut n);
    assert_eq!(sb.score, 0);
    assert_eq!(s.0, Screen::new().0);
    assert!(!b.exists);
    assert!(n.type_id < 7 && n.shape_id < 4);
}

#[test]
fn menu_button_responses() {
    let r = menu_response(ButtonInteraction::Clicked);
    assert_eq!(r.look, ButtonLook::Pressed);
    assert!(r.start_game);
    let r = menu_response(ButtonInteraction::Hovered);
    assert_eq!(r.look, ButtonLook::Hovered);
    assert!(!r.start_game);
    let r = menu_response(ButtonInteraction::Untouched);
    assert_eq!(r.look, ButtonLook::Normal);
    assert!(!r.start_game);
}

#[test]
fn app_state_transitions() {
    assert_eq!(next_app_state(AppState::Menu, GameEvent::ButtonClicked), AppState::InGame);
    assert_eq!(next_app_state(AppState::GameOver, GameEvent::ButtonClicked), AppState::InGame);
    assert_eq!(next_app_state(AppState::InGame, GameEvent::EscapeReleased), AppState::Menu);
    assert_eq!(next_app_state(AppState::InGame, GameEvent::ToppedOut), AppState::GameOver);
    assert_eq!(next_app_state(AppState::InGame, GameEvent::ButtonClicked), AppState::InGame);
    assert_eq!(next_app_state(AppState::Menu, GameEvent::EscapeReleased), AppState::Menu);
    assert_eq!(next_app_state(AppState::GameOver, GameEvent::ToppedOut), AppState::GameOver);
}

#[test]
fn a_long_drop_past_the_floor_lands_where_the_piece_was() {
    let mut s = Screen::new();
    let mut b = block(0, 1, 20, 7);
    assert!(s.scan_stays_on_board(&L2, 25, 7));
    assert_eq!(block_drop(&mut s, &mut b, 25), DropOutcome::Landed);
    assert!(!b.exists);
    assert_eq!(b.i, 20);
    for r in 20..24 {
        assert_eq!(s.0[r][7], 1);
    }
    assert_eq!(s.0[24][7], 1);
}

#[test]
fn moving_or_turning_into_the_floor_is_refused() {
    let s = Screen::new();
    let mut b = block(0, 1, 25, 7);
    assert!(!block_move(&s, &mut b, 8));
    assert_eq!(b.j, 7);
    let mut w = block(4, 0, 24, 7);
    assert!(!block_rotate(&s, &mut w));
    assert_eq!(w.shape_id, 0);
}

#[test]
fn render_far_away_block_draws_only_the_board() {
    let s = Screen::new();
    let b = Block { exists: true, i: usize::MAX, j: usize::MAX, type_id: 0, shape_id: 0 };
    assert!(!screen_cell_shown(&s, &b, 10, 5));
    assert!(screen_cell_shown(&s, &b, 10, 2));
}
