use slide2048::board::Board;
use slide2048::board::Direction;
use slide2048::rng::RandomSource;
use slide2048::slide::exp_to_value;

fn cells_of(b: &Board) -> Vec<u8> {
    let mut out = Vec::new();
    let mut i: usize = 0;
    while i < 16 {
        out.push(b.cell(i));
        i += 1;
    }
    out
}

fn board_from_rows(rows: [[u8; 4]; 4]) -> Board {
    let mut cells = Vec::new();
    for row in rows.iter() {
        for v in row.iter() {
            cells.push(*v);
        }
    }
    Board::from_cells(cells)
}

#[test]
fn exp_to_value_doubles() {
    assert_eq!(exp_to_value(1), 2);
    assert_eq!(exp_to_value(2), 4);
    assert_eq!(exp_to_value(11), 2048);
}

#[test]
fn slide_left_merges_equal_pair() {
    let b = board_from_rows([[1, 1, 0, 0], [0, 0, 0, 0], [0, 0, 0, 0], [0, 0, 0, 0]]);
    let r = b.compute_slide(Direction::Left);
    assert!(r.changed);
    assert_eq!(r.score_gained, 4);
    let cells = cells_of(&r.new_board);
    assert_eq!(cells[0], 2);
    for k in 1..16 {
        assert_eq!(cells[k], 0);
    }
    // the live grid was not touched
    assert_eq!(b.cell(0), 1);
    assert_eq!(b.cell(1), 1);
}

#[test]
fn no_chain_merge_in_full_line() {
    // [2,2,2,2] -> [4,4,_,_], score 8, never [8,_,_,_]
    let b = board_from_rows([[1, 1, 1, 1], [0, 0, 0, 0], [0, 0, 0, 0], [0, 0, 0, 0]]);
    let r = b.compute_slide(Direction::Left);
    assert!(r.changed);
    assert_eq!(r.score_gained, 8);
    let cells = cells_of(&r.new_board);
    assert_eq!(&cells[0..4], &[2, 2, 0, 0]);
}

#[test]
fn three_equal_tiles_merge_first_pair_only() {
    // [2,2,2,_] -> [4,2,_,_], score 4
    let b = board_from_rows([[1, 1, 1, 0], [0, 0, 0, 0], [0, 0, 0, 0], [0, 0, 0, 0]]);
    let r = b.compute_slide(Direction::Left);
    assert!(r.changed);
    assert_eq!(r.score_gained, 4);
    let cells = cells_of(&r.new_board);
    assert_eq!(&cells[0..4], &[2, 1, 0, 0]);
}

#[test]
fn gap_merge() {
    // [2,_,2,_] -> [4,_,_,_], score 4
    let b = board_from_rows([[1, 0, 1, 0], [0, 0, 0, 0], [0, 0, 0, 0], [0, 0, 0, 0]]);
    let r = b.compute_slide(Direction::Left);
    assert!(r.changed);
    assert_eq!(r.score_gained, 4);
    let cells = cells_of(&r.new_board);
    assert_eq!(&cells[0..4], &[2, 0, 0, 0]);
}

#[test]
fn move_without_merge_changes_but_scores_nothing() {
    // [_,2,_,_] -> [2,_,_,_], score 0, changed
    let b = board_from_rows([[0, 1, 0, 0], [0, 0, 0, 0], [0, 0, 0, 0], [0, 0, 0, 0]]);
    let r = b.compute_slide(Direction::Left);
    assert!(r.changed);
    assert_eq!(r.score_gained, 0);
    let cells = cells_of(&r.new_board);
    assert_eq!(&cells[0..4], &[1, 0, 0, 0]);
}

#[test]
fn packed_line_is_unchanged() {
    // [2,4,_,_] toward the 2: nothing moves
    let b = board_from_rows([[1, 2, 0, 0], [0, 0, 0, 0], [0, 0, 0, 0], [0, 0, 0, 0]]);
    let r = b.compute_slide(Direction::Left);
    assert!(!r.changed);
    assert_eq!(r.score_gained, 0);
    assert_eq!(cells_of(&r.new_board), cells_of(&b));
}

#[test]
fn unchanged_slide_repeats_identically() {
    let b = board_from_rows([[1, 2, 0, 0], [2, 1, 0, 0], [0, 0, 0, 0], [0, 0, 0, 0]]);
    let first = b.compute_slide(Direction::Left);
    assert!(!first.changed);
    let again = first.new_board.compute_slide(Direction::Left);
    assert!(!again.changed);
    assert_eq!(again.score_gained, 0);
    assert_eq!(cells_of(&again.new_board), cells_of(&b));
}

#[test]
fn movements_cover_both_merged_tiles() {
    let b = board_from_rows([[1, 1, 0, 0], [0, 0, 0, 0], [0, 0, 0, 0], [0, 0, 0, 0]]);
    let r = b.compute_slide(Direction::Left);
    assert_eq!(r.movements.len(), 2);
    assert_eq!(r.movements[0].from, 0);
    assert_eq!(r.movements[0].to, 0);
    assert_eq!(r.movements[1].from, 1);
    assert_eq!(r.movements[1].to, 0);
    assert_eq!(r.merge_destinations, vec![0]);
}

#[test]
fn immobile_tiles_record_identity_movements() {
    let b = board_from_rows([[1, 2, 0, 0], [0, 0, 0, 0], [0, 0, 0, 0], [0, 0, 0, 0]]);
    let r = b.compute_slide(Direction::Left);
    assert!(!r.changed);
    assert_eq!(r.movements.len(), 2);
    assert_eq!(r.movements[0].from, 0);
    assert_eq!(r.movements[0].to, 0);
    assert_eq!(r.movements[1].from, 1);
    assert_eq!(r.movements[1].to, 1);
    assert!(r.merge_destinations.is_empty());
}

#[test]
fn slide_right_compacts_toward_high_x() {
    let b = board_from_rows([[1, 1, 0, 0], [0, 0, 0, 0], [0, 0, 0, 0], [0, 0, 0, 0]]);
    let r = b.compute_slide(Direction::Right);
    assert!(r.changed);
    assert_eq!(r.score_gained, 4);
    let cells = cells_of(&r.new_board);
    assert_eq!(&cells[0..4], &[0, 0, 0, 2]);
}

#[test]
fn slide_up_compacts_toward_high_y() {
    // tiles at (0,0) and (0,1) merge at (0,3), index 12
    let b = board_from_rows([[1, 0, 0, 0], [1, 0, 0, 0], [0, 0, 0, 0], [0, 0, 0, 0]]);
    let r = b.compute_slide(Direction::Up);
    assert!(r.changed);
    assert_eq!(r.score_gained, 4);
    let cells = cells_of(&r.new_board);
    assert_eq!(cells[12], 2);
    for k in 0..12 {
        assert_eq!(cells[k], 0);
    }
}

#[test]
fn slide_down_compacts_toward_low_y() {
    // a tile at (2,2), index 10, falls to (2,0), index 2
    let b = board_from_rows([[0, 0, 0, 0], [0, 0, 0, 0], [0, 0, 1, 0], [0, 0, 0, 0]]);
    let r = b.compute_slide(Direction::Down);
    assert!(r.changed);
    assert_eq!(r.score_gained, 0);
    let cells = cells_of(&r.new_board);
    assert_eq!(cells[2], 1);
    assert_eq!(cells[10], 0);
}

#[test]
fn can_move_with_empty_cell() {
    assert!(Board::empty().can_move());
    let b = board_from_rows([[1, 2, 3, 4], [5, 6, 7, 8], [1, 2, 3, 4], [5, 6, 7, 0]]);
    assert!(b.can_move());
}

#[test]
fn can_move_full_grid_without_pairs() {
    let b = board_from_rows([[1, 2, 1, 2], [2, 1, 2, 1], [1, 2, 1, 2], [2, 1, 2, 1]]);
    assert!(!b.can_move());
}

#[test]
fn can_move_full_grid_with_adjacent_pair() {
    // equal pair in a row
    let b = board_from_rows([[1, 1, 2, 1], [2, 3, 4, 2], [1, 2, 1, 3], [2, 1, 2, 1]]);
    assert!(b.can_move());
    // equal pair in a column only
    let c = board_from_rows([[1, 2, 1, 2], [2, 1, 2, 1], [1, 2, 1, 2], [1, 1, 2, 1]]);
    assert!(c.can_move());
}

#[test]
fn place_random_tile_picks_the_only_empty_cell() {
    let mut rng = RandomSource::new();
    for _ in 0..200 {
        let mut cells = vec![1u8; 16];
        cells[5] = 0;
        let mut b = Board::from_cells(cells);
        let placed = b.place_random_tile(&mut rng);
        assert_eq!(placed, Some(5));
        assert!(b.cell(5) == 1 || b.cell(5) == 2);
        for k in 0..16 {
            if k != 5 {
                assert_eq!(b.cell(k), 1);
            }
        }
    }
}

#[test]
fn place_random_tile_on_full_grid_is_a_no_op() {
    let mut rng = RandomSource::new();
    let mut b = Board::from_cells(vec![3u8; 16]);
    assert_eq!(b.place_random_tile(&mut rng), None);
    for k in 0..16 {
        assert_eq!(b.cell(k), 3);
    }
}

#[test]
fn place_random_tile_is_roughly_uniform_over_empties() {
    let mut rng = RandomSource::new();
    let empties: [usize; 4] = [0, 7, 9, 15];
    let mut counts = [0u32; 4];
    let trials = 8000;
    for _ in 0..trials {
        let mut cells = vec![1u8; 16];
        for e in empties.iter() {
            cells[*e] = 0;
        }
        let mut b = Board::from_cells(cells);
        let placed = b.place_random_tile(&mut rng).expect("an empty cell exists");
        let slot = empties.iter().position(|e| *e == placed).expect("chose an empty cell");
        counts[slot] += 1;
    }
    // each of the 4 empties should get about a quarter of the picks
    for c in counts.iter() {
        let share = *c as f64 / trials as f64;
        assert!(share > 0.15 && share < 0.35, "share was {share}");
    }
}

#[test]
fn place_random_tile_spawns_a_four_about_a_tenth_of_the_time() {
    let mut rng = RandomSource::new();
    let trials = 10000;
    let mut fours = 0u32;
    for _ in 0..trials {
        let mut b = Board::empty();
        let placed = b.place_random_tile(&mut rng).expect("empty grid has room");
        match b.cell(placed) {
            1 => {}
            2 => fours += 1,
            v => panic!("unexpected exponent {v}"),
        }
    }
    let share = fours as f64 / trials as f64;
    assert!(share > 0.05 && share < 0.15, "share was {share}");
}

#[test]
fn with_two_tiles_places_exactly_two() {
    let mut rng = RandomSource::new();
    for _ in 0..50 {
        let b = Board::with_two_tiles(&mut rng);
        let mut tiles = 0;
        for k in 0..16 {
            let v = b.cell(k);
            assert!(v <= 2);
            if v != 0 {
                tiles += 1;
            }
        }
        assert_eq!(tiles, 2);
    }
}

#[test]
fn exponents_within_limit_flags_oversized_tiles() {
    assert!(Board::empty().exponents_within_limit());
    // merging two tiles at the limit steps one past it
    let b = board_from_rows([[30, 30, 0, 0], [0, 0, 0, 0], [0, 0, 0, 0], [0, 0, 0, 0]]);
    assert!(b.exponents_within_limit());
    let r = b.compute_slide(Direction::Left);
    assert_eq!(r.new_board.cell(0), 31);
    assert!(!r.new_board.exponents_within_limit());
}
