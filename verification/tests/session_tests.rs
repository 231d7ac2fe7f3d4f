use slide2048::board::Board;
use slide2048::board::Direction;
use slide2048::rng::RandomSource;
use slide2048::session::GamePhase;
use slide2048::session::GameSession;
use slide2048::session::TurnPhase;

fn board_from_rows(rows: [[u8; 4]; 4]) -> Board {
    let mut cells = Vec::new();
    for row in rows.iter() {
        for v in row.iter() {
            cells.push(*v);
        }
    }
    Board::from_cells(cells)
}

fn tile_count(b: &Board) -> usize {
    let mut n = 0;
    for k in 0..16 {
        if b.cell(k) != 0 {
            n += 1;
        }
    }
    n
}

#[test]
fn new_session_starts_idle_with_two_tiles() {
    let mut rng = RandomSource::new();
    let s = GameSession::new(&mut rng);
    assert_eq!(s.turn_phase, TurnPhase::Idle);
    assert_eq!(s.game_phase, GamePhase::Playing);
    assert_eq!(s.score, 0);
    assert!(s.pending.is_none());
    assert!(!s.has_won);
    assert_eq!(tile_count(&s.board), 2);
}

#[test]
fn move_intent_outside_idle_has_no_effect() {
    let mut rng = RandomSource::new();
    let b = board_from_rows([[1, 1, 0, 0], [0, 0, 0, 0], [0, 0, 0, 0], [0, 0, 0, 0]]);
    let mut s = GameSession::with_board(b);

    assert!(s.handle_move_intent(Direction::Left));
    assert_eq!(s.turn_phase, TurnPhase::Sliding);
    assert!(s.pending.is_some());
    let pending_moves = s.pending.as_ref().unwrap().movements.len();

    // a second intent while Sliding is discarded: no effect on grid, score
    // or pending result
    assert!(!s.handle_move_intent(Direction::Right));
    assert_eq!(s.turn_phase, TurnPhase::Sliding);
    assert_eq!(s.score, 0);
    assert_eq!(s.board.cell(0), 1);
    assert_eq!(s.board.cell(1), 1);
    assert_eq!(s.pending.as_ref().unwrap().movements.len(), pending_moves);

    // also discarded while Settling
    assert!(s.finish_sliding(&mut rng).is_some());
    assert_eq!(s.turn_phase, TurnPhase::Settling);
    let score_after_commit = s.score;
    assert!(!s.handle_move_intent(Direction::Up));
    assert_eq!(s.turn_phase, TurnPhase::Settling);
    assert_eq!(s.score, score_after_commit);
}

#[test]
fn end_to_end_merge_scenario() {
    let mut rng = RandomSource::new();
    // two tiles of exponent 1 at distinct indices, merged by sliding left
    let b = board_from_rows([[1, 1, 0, 0], [0, 0, 0, 0], [0, 0, 0, 0], [0, 0, 0, 0]]);
    let mut s = GameSession::with_board(b);
    assert_eq!(tile_count(&s.board), 2);

    // Idle -> Sliding; the live grid is still the pre-move grid
    assert!(s.handle_move_intent(Direction::Left));
    assert_eq!(s.turn_phase, TurnPhase::Sliding);
    assert_eq!(s.score, 0);
    assert_eq!(tile_count(&s.board), 2);

    // Sliding -> Settling: commit plus one spawned tile
    let (dests, spawned) = s.finish_sliding(&mut rng).expect("a result was pending");
    assert_eq!(s.turn_phase, TurnPhase::Settling);
    assert_eq!(dests, vec![0]);
    assert_eq!(s.score, 4);
    let spawn_index = spawned.expect("the merged grid had room");
    assert_ne!(spawn_index, 0);
    assert_eq!(s.board.cell(0), 2);
    let spawn_value = s.board.cell(spawn_index);
    assert!(spawn_value == 1 || spawn_value == 2);
    // exactly one merged tile plus one freshly spawned tile, never more
    assert_eq!(tile_count(&s.board), 2);

    // Settling -> Idle; the board is already final
    s.finish_settling();
    assert_eq!(s.turn_phase, TurnPhase::Idle);
    assert_eq!(s.score, 4);
    assert_eq!(tile_count(&s.board), 2);

    s.check_game_state();
    assert_eq!(s.game_phase, GamePhase::Playing);
}

#[test]
fn no_change_intent_is_rejected() {
    let b = board_from_rows([[1, 2, 0, 0], [0, 0, 0, 0], [0, 0, 0, 0], [0, 0, 0, 0]]);
    let mut s = GameSession::with_board(b);
    assert!(!s.handle_move_intent(Direction::Left));
    assert_eq!(s.turn_phase, TurnPhase::Idle);
    assert!(s.pending.is_none());
    assert_eq!(s.score, 0);
}

#[test]
fn finish_sliding_outside_sliding_is_a_no_op() {
    let mut rng = RandomSource::new();
    let b = board_from_rows([[1, 1, 0, 0], [0, 0, 0, 0], [0, 0, 0, 0], [0, 0, 0, 0]]);
    let mut s = GameSession::with_board(b);
    assert!(s.finish_sliding(&mut rng).is_none());
    assert_eq!(s.turn_phase, TurnPhase::Idle);
    assert_eq!(s.score, 0);
    assert_eq!(s.board.cell(0), 1);
}

#[test]
fn finish_settling_outside_settling_is_a_no_op() {
    let b = board_from_rows([[1, 1, 0, 0], [0, 0, 0, 0], [0, 0, 0, 0], [0, 0, 0, 0]]);
    let mut s = GameSession::with_board(b);
    s.finish_settling();
    assert_eq!(s.turn_phase, TurnPhase::Idle);
    assert!(s.handle_move_intent(Direction::Left));
    s.finish_settling();
    assert_eq!(s.turn_phase, TurnPhase::Sliding);
}

#[test]
fn win_fires_once_and_play_can_continue() {
    let b = board_from_rows([[11, 0, 0, 0], [0, 0, 0, 0], [0, 0, 0, 0], [0, 0, 0, 0]]);
    let mut s = GameSession::with_board(b);
    s.check_game_state();
    assert_eq!(s.game_phase, GamePhase::Won);
    assert!(s.has_won);

    s.continue_playing();
    assert_eq!(s.game_phase, GamePhase::Playing);

    // the winning tile is still there, but the win fires only once
    s.check_game_state();
    assert_eq!(s.game_phase, GamePhase::Playing);
    assert!(s.has_won);
}

#[test]
fn game_over_when_no_move_is_left() {
    let b = board_from_rows([[1, 2, 1, 2], [2, 1, 2, 1], [1, 2, 1, 2], [2, 1, 2, 1]]);
    let mut s = GameSession::with_board(b);
    s.check_game_state();
    assert_eq!(s.game_phase, GamePhase::GameOver);

    // no intent is honoured once the game is over
    assert!(!s.handle_move_intent(Direction::Left));
    assert_eq!(s.turn_phase, TurnPhase::Idle);
}

#[test]
fn game_state_is_not_checked_mid_turn() {
    let mut rng = RandomSource::new();
    let b = board_from_rows([[11, 11, 0, 0], [0, 0, 0, 0], [0, 0, 0, 0], [0, 0, 0, 0]]);
    let mut s = GameSession::with_board(b);
    assert!(s.handle_move_intent(Direction::Left));
    // while Sliding, win detection is gated off
    s.check_game_state();
    assert_eq!(s.game_phase, GamePhase::Playing);
    assert!(!s.has_won);
    assert!(s.finish_sliding(&mut rng).is_some());
    s.finish_settling();
    // back at Idle the (now merged, exponent 12) grid holds no 11: no win
    s.check_game_state();
    assert_eq!(s.game_phase, GamePhase::Playing);
}

#[test]
fn new_game_resets_everything() {
    let mut rng = RandomSource::new();
    let b = board_from_rows([[1, 1, 0, 0], [0, 0, 0, 0], [0, 0, 0, 0], [0, 0, 0, 0]]);
    let mut s = GameSession::with_board(b);
    assert!(s.handle_move_intent(Direction::Left));
    assert!(s.finish_sliding(&mut rng).is_some());
    assert_eq!(s.score, 4);

    s.new_game(&mut rng);
    assert_eq!(s.score, 0);
    assert_eq!(s.turn_phase, TurnPhase::Idle);
    assert_eq!(s.game_phase, GamePhase::Playing);
    assert!(s.pending.is_none());
    assert!(!s.has_won);
    assert_eq!(tile_count(&s.board), 2);
}
