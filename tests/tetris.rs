use simple_allocator::{
    factorial, Board, Coord, KeyState, Tetris, TetrisGame, TetrisInput, TetrisRenderer, TetrisSound,
    Tetrominoes,
};

fn at(x: i16, y: i16) -> Coord {
    Coord { x, y }
}

#[test]
fn factorial_values() {
    assert_eq!(factorial(0), 1);
    assert_eq!(factorial(1), 1);
    assert_eq!(factorial(5), 120);
    assert_eq!(factorial(10), 3_628_800);
}

#[test]
fn pieces_round_trip_through_numbers() {
    for n in 0..7u8 {
        assert_eq!(Tetrominoes::from_num(n).as_num(), n);
    }
    assert_eq!(Tetrominoes::T.as_num(), 5);
}

#[test]
fn piece_shapes() {
    assert_eq!(Tetrominoes::I.get_coords(0), [[0, 1], [1, 1], [2, 1], [3, 1]]);
    assert_eq!(Tetrominoes::I.get_coords(1), [[2, 3], [2, 2], [2, 1], [2, 0]]);
    assert_eq!(Tetrominoes::O.get_coords(3), [[0, 0], [1, 0], [0, 1], [1, 1]]);
    assert_eq!(Tetrominoes::Z.get_coords(2), [[0, 1], [1, 1], [1, 2], [2, 2]]);
}

#[test]
fn coord_scale_and_offset() {
    assert_eq!(at(3, -2).scale(4), at(12, -8));
    assert_eq!(at(3, -2).offset(-1, 5), at(2, 3));
}

#[test]
fn board_cells_pack_three_bits() {
    let mut b = Board::new();
    assert!(b.is_empty(at(3, 7)));
    b.set_data_at_coord(5, at(3, 7));
    assert_eq!(b.data_at_coord(at(3, 7)), 5);
    assert_eq!(b.data[7], 5 << 9);
    assert!(b.is_full(at(3, 7)));
    assert_eq!(b.data_at_coord(at(2, 7)), 0);
    assert_eq!(b.data_at_coord(at(4, 7)), 0);
    b.set_data_at_coord(9, at(3, 7));
    assert_eq!(b.data_at_coord(at(3, 7)), 1);
    b.set_data_at_coord(0, at(3, 7));
    assert_eq!(b.data[7], 0);
}

#[test]
fn intersection_with_edges_and_cells() {
    let mut b = Board::new();
    assert!(b.is_intersecting(at(-1, 0)));
    assert!(b.is_intersecting(at(10, 0)));
    assert!(b.is_intersecting(at(0, 40)));
    assert!(!b.is_intersecting(at(9, 39)));
    b.set_data_at_coord(2, at(9, 39));
    assert!(b.is_intersecting(at(9, 39)));
    assert!(b.is_any_intersecting(&[at(0, 0), at(9, 39)]));
    assert!(!b.is_any_intersecting(&[at(0, 0), at(8, 39)]));
}

#[test]
fn key_press_counts_once_and_release_resets() {
    let mut k = KeyState::new();
    assert!(k.key_pressed);
    k.update(false);
    assert_eq!(k, KeyState { key_down: false, frames_down: 0, key_pressed: false });
    k.update(true);
    assert_eq!(k, KeyState { key_down: true, frames_down: 0, key_pressed: true });
    k.update(true);
    assert_eq!(k, KeyState { key_down: true, frames_down: 1, key_pressed: false });
    k.update(false);
    assert_eq!(k, KeyState { key_down: false, frames_down: 0, key_pressed: false });
}

#[test]
fn fresh_game_state() {
    let g = TetrisGame::init();
    assert!(g.piece.is_none());
    assert_eq!(g.score, 0);
    assert_eq!(g.piece_stats, [0; 8]);
    assert!(g.get_curr_piece().is_none());
    assert!(g.get_dropped_piece().is_none());
    let input = TetrisInput::init();
    assert!(input.up_pressed() && input.left_pressed() && input.down_pressed());
    assert!(input.right_pressed() && input.save_pressed() && input.drop_down_pressed());
    assert_eq!(TetrisSound::init(), TetrisSound {});
    let r = TetrisRenderer::init();
    assert!(r.board.is_none() && r.piece.is_none() && r.dropped.is_none());
}

#[test]
fn random_numbers_from_the_frame_counter() {
    let t = Tetris::new();
    assert_eq!(t.rand_num(0, 6), 0);
    assert_eq!(t.rand_num(3, 3), 3);
}

#[test]
fn first_frame_spawns_a_piece() {
    let mut t = Tetris::new();
    t.run_frame(false, false, false, false, false, false, false);
    let (n, cells) = t.game().get_curr_piece().unwrap();
    assert_eq!(n, 0);
    assert_eq!(cells, [at(5, 23), at(6, 23), at(7, 23), at(8, 23)]);
    let (n, cells, d) = t.game().get_dropped_piece().unwrap();
    assert_eq!((n, d), (0, 16));
    assert_eq!(cells, [at(5, 39), at(6, 39), at(7, 39), at(8, 39)]);
}

#[test]
fn hard_drop_settles_and_scores() {
    let mut t = Tetris::new();
    t.run_frame(false, false, false, false, false, false, false);
    t.run_frame(false, false, false, false, false, true, false);
    let g = t.game();
    assert_eq!(g.board.data[39], 0x0124_8000);
    assert_eq!(g.score, 32);
    assert_eq!(g.piece_stats[0], 1);
    assert_eq!(g.piece_stats[7], 1);
    assert_eq!(g.get_curr_piece().unwrap().0, 6);
}

#[test]
fn moves_stop_at_the_wall() {
    let mut t = Tetris::new();
    t.run_frame(false, false, false, false, false, false, false);
    for _ in 0..10 {
        t.run_frame(false, false, false, false, false, false, false);
        t.run_frame(false, true, false, false, false, false, false);
    }
    let (_, cells) = t.game().get_curr_piece().unwrap();
    assert_eq!(cells[0].x, 0);
}

#[test]
fn quit_key_stops_the_game() {
    let mut t = Tetris::new();
    assert!(t.run_frame(false, false, false, false, false, false, false));
    assert!(!t.run_frame(false, false, false, false, false, false, true));
}

#[test]
fn soft_drop_scores_a_point_a_frame() {
    let mut t = Tetris::new();
    t.run_frame(false, false, false, false, false, false, false);
    t.run_frame(false, false, true, false, false, false, false);
    t.run_frame(false, false, true, false, false, false, false);
    assert_eq!(t.game().score, 2);
}

#[test]
fn blocked_fall_settles_the_piece() {
    let mut t = Tetris::new();
    t.run_frame(false, false, false, false, false, false, false);
    // Soft drop halves the wait from 48 to 24 frames; the I piece has 16 rows to fall.
    let mut frames = 0;
    while t.game().piece_stats[7] == 0 {
        t.run_frame(false, false, true, false, false, false, false);
        frames += 1;
        assert!(frames < 1000);
    }
    assert_eq!(t.game().board.data[39], 0x0124_8000);
    assert_eq!(frames, 17 * 25);
}
