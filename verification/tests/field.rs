use minesweeper::cell::{Cell, CellState};
use minesweeper::field::{Field, FieldError};
use minesweeper::input::Button;

fn center_bomb() -> Field {
    Field::with_bombs((3, 3), &vec![4]).unwrap()
}

fn hidden_cells(f: &Field) -> usize {
    let (w, h) = f.size();
    let mut n = 0;
    for y in 0..h {
        for x in 0..w {
            if f.cell_at(x, y).hidden {
                n += 1;
            }
        }
    }
    n
}

fn bomb_cells(f: &Field) -> usize {
    let (w, h) = f.size();
    let mut n = 0;
    for y in 0..h {
        for x in 0..w {
            let s = f.cell_at(x, y).state;
            if s == CellState::Bomb || s == CellState::DeathBomb {
                n += 1;
            }
        }
    }
    n
}

fn bombs_touching(f: &Field, x: u32, y: u32) -> u8 {
    let (w, h) = f.size();
    let mut n = 0;
    for qy in 0..h {
        for qx in 0..w {
            let dx = (qx as i64 - x as i64).abs();
            let dy = (qy as i64 - y as i64).abs();
            if dx <= 1 && dy <= 1 && (dx, dy) != (0, 0) {
                let s = f.cell_at(qx, qy).state;
                if s == CellState::Bomb || s == CellState::DeathBomb {
                    n += 1;
                }
            }
        }
    }
    n
}

#[test]
fn with_bombs_lays_the_bomb_and_counts_around_it() {
    let f = center_bomb();
    assert_eq!(f.size(), (3, 3));
    assert_eq!(f.n_bombs(), 1);
    assert_eq!(f.n_hidden(), 9);
    assert_eq!(f.mouse(), (0, 0));
    for y in 0..3 {
        for x in 0..3 {
            let expected = if (x, y) == (1, 1) { CellState::Bomb } else { CellState::Value(1) };
            assert_eq!(*f.cell_at(x, y), Cell { state: expected, hidden: true });
        }
    }
}

#[test]
fn with_bombs_counts_several_bombs() {
    // b 2 b 1
    // 1 3 2 2
    // . 1 b 1
    let f = Field::with_bombs((4, 3), &vec![0, 2, 10]).unwrap();
    let expected = [
        [CellState::Bomb, CellState::Value(2), CellState::Bomb, CellState::Value(1)],
        [CellState::Value(1), CellState::Value(3), CellState::Value(2), CellState::Value(2)],
        [CellState::Empty, CellState::Value(1), CellState::Bomb, CellState::Value(1)],
    ];
    for y in 0..3u32 {
        for x in 0..4u32 {
            assert_eq!(f.cell_at(x, y).state, expected[y as usize][x as usize], "at ({}, {})", x, y);
        }
    }
}

#[test]
fn with_bombs_surrounded_cell_shows_eight() {
    let f = Field::with_bombs((3, 3), &vec![0, 1, 2, 3, 5, 6, 7, 8]).unwrap();
    assert_eq!(f.cell_at(1, 1).state, CellState::Value(8));
    assert_eq!(f.n_bombs(), 8);
}

#[test]
fn with_bombs_refuses_an_index_beyond_the_grid() {
    assert_eq!(Field::with_bombs((3, 3), &vec![9]).err(), Some(FieldError::InvalidConfiguration));
}

#[test]
fn with_bombs_refuses_a_repeated_index() {
    assert_eq!(Field::with_bombs((3, 3), &vec![2, 5, 2]).err(), Some(FieldError::InvalidConfiguration));
}

#[test]
fn with_bombs_accepts_an_empty_grid() {
    let f = Field::with_bombs((0, 5), &vec![]).unwrap();
    assert_eq!(f.n_hidden(), 0);
    assert!(f.render().is_empty());
}

#[test]
fn new_places_the_configured_number_of_bombs() {
    for _ in 0..20 {
        let mut rng = rand::thread_rng();
        let f = Field::new(&mut rng, (10, 10), 12).unwrap();
        assert_eq!(f.size(), (10, 10));
        assert_eq!(f.n_bombs(), 12);
        assert_eq!(bomb_cells(&f), 12);
        assert_eq!(f.n_hidden(), 100);
        assert_eq!(hidden_cells(&f), 100);
    }
}

#[test]
fn new_numbers_every_cell_without_a_bomb() {
    for _ in 0..20 {
        let mut rng = rand::thread_rng();
        let f = Field::new(&mut rng, (7, 5), 9).unwrap();
        for y in 0..5 {
            for x in 0..7 {
                let n = bombs_touching(&f, x, y);
                match f.cell_at(x, y).state {
                    CellState::Bomb => {}
                    CellState::Empty => assert_eq!(n, 0),
                    CellState::Value(v) => {
                        assert!(n > 0);
                        assert_eq!(v, n);
                    }
                    CellState::DeathBomb => panic!("a fresh field holds no bomb that went off"),
                }
            }
        }
    }
}

#[test]
fn new_refuses_more_bombs_than_cells() {
    let mut rng = rand::thread_rng();
    assert_eq!(Field::new(&mut rng, (3, 3), 10).err(), Some(FieldError::InvalidConfiguration));
}

#[test]
fn new_fills_the_grid_with_bombs_when_asked() {
    let mut rng = rand::thread_rng();
    let f = Field::new(&mut rng, (3, 3), 9).unwrap();
    assert_eq!(bomb_cells(&f), 9);
}

#[test]
fn new_without_bombs_is_all_empty() {
    let mut rng = rand::thread_rng();
    let f = Field::new(&mut rng, (4, 4), 0).unwrap();
    for y in 0..4 {
        for x in 0..4 {
            assert_eq!(*f.cell_at(x, y), Cell { state: CellState::Empty, hidden: true });
        }
    }
}

#[test]
fn adjacent_coords_of_an_inner_cell() {
    let f = center_bomb();
    assert_eq!(
        f.adjacent_coords(1, 1),
        vec![(0, 0), (1, 0), (2, 0), (0, 1), (2, 1), (0, 2), (1, 2), (2, 2)]
    );
}

#[test]
fn adjacent_coords_of_corners_and_edges() {
    let f = center_bomb();
    assert_eq!(f.adjacent_coords(0, 0), vec![(1, 0), (0, 1), (1, 1)]);
    assert_eq!(f.adjacent_coords(2, 2), vec![(1, 1), (2, 1), (1, 2)]);
    assert_eq!(f.adjacent_coords(1, 0), vec![(0, 0), (2, 0), (0, 1), (1, 1), (2, 1)]);
    assert_eq!(f.adjacent_coords(0, 1), vec![(0, 0), (1, 0), (1, 1), (0, 2), (1, 2)]);
}

#[test]
fn adjacent_coords_beside_the_grid() {
    let f = center_bomb();
    assert_eq!(f.adjacent_coords(3, 3), vec![(2, 2)]);
    assert_eq!(f.adjacent_coords(10, 10), Vec::<(u32, u32)>::new());
    assert_eq!(f.adjacent_coords(u32::MAX, u32::MAX), Vec::<(u32, u32)>::new());
}

#[test]
fn adjacent_coords_on_a_single_cell() {
    let f = Field::with_bombs((1, 1), &vec![]).unwrap();
    assert_eq!(f.adjacent_coords(0, 0), Vec::<(u32, u32)>::new());
}

#[test]
fn uncover_a_numbered_cell_spreads_nothing() {
    let mut f = center_bomb();
    f.uncover(0, 0);
    assert_eq!(f.n_hidden(), 8);
    for y in 0..3 {
        for x in 0..3 {
            assert_eq!(f.cell_at(x, y).hidden, (x, y) != (0, 0));
        }
    }
}

#[test]
fn uncover_spreads_over_empty_cells_and_stops_at_numbers() {
    // . 1 b 1 .
    let mut f = Field::with_bombs((5, 1), &vec![2]).unwrap();
    f.uncover(0, 0);
    assert!(!f.cell_at(0, 0).hidden);
    assert!(!f.cell_at(1, 0).hidden);
    assert!(f.cell_at(2, 0).hidden);
    assert!(f.cell_at(3, 0).hidden);
    assert!(f.cell_at(4, 0).hidden);
    assert_eq!(f.n_hidden(), 3);
}

#[test]
fn uncover_spreads_around_corners() {
    // . . . . .
    // . . . . .
    // . . . 1 1
    // . . . 1 b
    let mut f = Field::with_bombs((5, 4), &vec![19]).unwrap();
    f.uncover(0, 0);
    assert_eq!(f.n_hidden(), 1);
    assert!(f.cell_at(4, 3).hidden);
    assert!(!f.cell_at(3, 3).hidden);
    assert!(!f.cell_at(4, 2).hidden);
    assert_eq!(hidden_cells(&f), 1);
}

#[test]
fn uncover_does_not_pass_a_wall_of_numbers() {
    // . 1 b 1 .
    // . 1 1 1 .   <- the right side is cut off by bombs below
    // 1 1 1 1 1
    // 1 b 2 b 1
    let mut f = Field::with_bombs((5, 4), &vec![2, 16, 18]).unwrap();
    assert_eq!(f.cell_at(0, 0).state, CellState::Empty);
    assert_eq!(f.cell_at(4, 0).state, CellState::Empty);
    f.uncover(0, 0);
    let open: Vec<(u32, u32)> = vec![(0, 0), (1, 0), (0, 1), (1, 1), (0, 2), (1, 2)];
    for y in 0..4 {
        for x in 0..5 {
            assert_eq!(!f.cell_at(x, y).hidden, open.contains(&(x, y)), "at ({}, {})", x, y);
        }
    }
    assert_eq!(f.n_hidden(), 14);
}

#[test]
fn uncover_twice_is_uncover_once() {
    let mut f = Field::with_bombs((5, 4), &vec![2, 16, 18]).unwrap();
    f.uncover(0, 0);
    let once = f.render();
    let hidden = f.n_hidden();
    f.uncover(0, 0);
    assert_eq!(f.render(), once);
    assert_eq!(f.n_hidden(), hidden);
}

#[test]
fn uncover_counts_each_cell_once() {
    for _ in 0..20 {
        let mut rng = rand::thread_rng();
        let mut f = Field::new(&mut rng, (8, 8), 6).unwrap();
        for (x, y) in [(0u32, 0u32), (7, 7), (3, 4), (0, 0), (5, 1)] {
            let before = hidden_cells(&f);
            let counted = f.n_hidden();
            f.uncover(x, y);
            assert_eq!(counted - f.n_hidden(), before - hidden_cells(&f));
            assert_eq!(f.n_hidden(), hidden_cells(&f));
            assert!(!f.cell_at(x, y).hidden);
        }
    }
}

#[test]
fn uncover_a_bomb_opens_only_the_bomb() {
    let mut f = center_bomb();
    f.uncover(1, 1);
    assert_eq!(f.n_hidden(), 8);
    assert_eq!(*f.cell_at(1, 1), Cell { state: CellState::Bomb, hidden: false });
}

#[test]
fn press_the_bomb_loses_and_opens_everything() {
    let mut f = center_bomb();
    f.press(1, 1);
    assert_eq!(*f.cell_at(1, 1), Cell { state: CellState::DeathBomb, hidden: false });
    assert_eq!(f.n_hidden(), 0);
    assert_eq!(hidden_cells(&f), 0);
    assert_eq!(f.n_bombs(), 1);
}

#[test]
fn press_a_bomb_leaves_the_other_bombs_plain() {
    let mut f = Field::with_bombs((4, 3), &vec![0, 2, 10]).unwrap();
    f.press(2, 0);
    assert_eq!(f.cell_at(2, 0).state, CellState::DeathBomb);
    assert_eq!(f.cell_at(0, 0).state, CellState::Bomb);
    assert_eq!(f.cell_at(2, 2).state, CellState::Bomb);
    assert_eq!(f.cell_at(1, 1).state, CellState::Value(3));
    assert_eq!(hidden_cells(&f), 0);
    assert_eq!(bomb_cells(&f), 3);
}

#[test]
fn press_the_last_safe_cell_wins_and_opens_everything() {
    let mut f = Field::with_bombs((2, 1), &vec![1]).unwrap();
    f.press(0, 0);
    assert_eq!(*f.cell_at(0, 0), Cell { state: CellState::Value(1), hidden: false });
    assert_eq!(*f.cell_at(1, 0), Cell { state: CellState::Bomb, hidden: false });
    assert_eq!(f.n_hidden(), 0);
}

#[test]
fn press_wins_by_a_cascade() {
    let mut f = Field::with_bombs((5, 4), &vec![19]).unwrap();
    f.press(0, 0);
    assert_eq!(hidden_cells(&f), 0);
    assert_eq!(f.cell_at(4, 3).state, CellState::Bomb);
}

#[test]
fn press_a_safe_cell_keeps_playing() {
    let mut f = center_bomb();
    f.press(0, 0);
    assert_eq!(f.n_hidden(), 8);
    assert!(f.cell_at(1, 1).hidden);
    assert_eq!(f.cell_at(1, 1).state, CellState::Bomb);
}

#[test]
fn press_on_a_field_without_bombs_wins_at_once() {
    let mut f = Field::with_bombs((3, 3), &vec![]).unwrap();
    f.press(1, 1);
    assert_eq!(f.n_hidden(), 0);
    assert_eq!(hidden_cells(&f), 0);
}

#[test]
fn mouse_click_maps_pixels_to_cells() {
    let mut f = center_bomb();
    f.mouse_move((16 + 3, 16 + 15));
    assert_eq!(f.mouse(), (19, 31));
    f.mouse_click(&Button::MouseLeft);
    assert_eq!(f.cell_at(1, 1).state, CellState::DeathBomb);
    assert_eq!(hidden_cells(&f), 0);
}

#[test]
fn mouse_click_on_the_first_pixel_of_a_cell() {
    let mut f = center_bomb();
    f.mouse_move((32, 0));
    f.mouse_click(&Button::MouseLeft);
    assert!(!f.cell_at(2, 0).hidden);
    assert_eq!(f.n_hidden(), 8);
}

#[test]
fn mouse_click_beside_the_grid_does_nothing() {
    let mut f = center_bomb();
    let before = f.render();
    for at in [(48u32, 0u32), (0, 48), (1000, 1000), (u32::MAX, u32::MAX)] {
        f.mouse_move(at);
        f.mouse_click(&Button::MouseLeft);
        assert_eq!(f.render(), before);
        assert_eq!(f.n_hidden(), 9);
    }
}

#[test]
fn mouse_click_ignores_other_buttons() {
    let mut f = center_bomb();
    f.mouse_move((20, 20));
    f.mouse_click(&Button::Other);
    assert_eq!(f.n_hidden(), 9);
    assert_eq!(f.cell_at(1, 1).state, CellState::Bomb);
    assert_eq!(f.mouse(), (20, 20));
}

#[test]
fn mouse_click_reset_key_starts_a_new_game() {
    let mut f = Field::with_bombs((6, 5), &vec![0, 7, 29]).unwrap();
    f.press(0, 0);
    f.mouse_move((77, 13));
    f.mouse_click(&Button::KeyR);
    assert_eq!(f.size(), (6, 5));
    assert_eq!(f.n_bombs(), 3);
    assert_eq!(bomb_cells(&f), 3);
    assert_eq!(f.n_hidden(), 30);
    assert_eq!(hidden_cells(&f), 30);
    assert_eq!(f.mouse(), (77, 13));
    for y in 0..5 {
        for x in 0..6 {
            assert!(f.cell_at(x, y).state != CellState::DeathBomb);
        }
    }
}

#[test]
fn reset_keeps_size_bombs_and_pointer() {
    let mut rng = rand::thread_rng();
    let mut f = Field::new(&mut rng, (10, 10), 12).unwrap();
    f.mouse_move((5, 150));
    f.press(3, 3);
    f.reset();
    assert_eq!(f.size(), (10, 10));
    assert_eq!(f.n_bombs(), 12);
    assert_eq!(bomb_cells(&f), 12);
    assert_eq!(f.n_hidden(), 100);
    assert_eq!(hidden_cells(&f), 100);
    assert_eq!(f.mouse(), (5, 150));
    for y in 0..10 {
        for x in 0..10 {
            if f.cell_at(x, y).state != CellState::Bomb {
                let n = bombs_touching(&f, x, y);
                let expected = if n == 0 { CellState::Empty } else { CellState::Value(n) };
                assert_eq!(f.cell_at(x, y).state, expected);
            }
        }
    }
}

#[test]
fn cell_mut_at_changes_the_cell_in_place() {
    let mut f = center_bomb();
    f.cell_mut_at(2, 1).hidden = false;
    assert_eq!(*f.cell_at(2, 1), Cell { state: CellState::Value(1), hidden: false });
    assert!(f.cell_at(1, 2).hidden);
    assert!(f.cell_at(2, 0).hidden);
}

#[test]
fn press_after_a_loss_changes_nothing() {
    let mut f = Field::with_bombs((2, 1), &vec![0, 1]).unwrap();
    f.press(0, 0);
    assert_eq!(*f.cell_at(0, 0), Cell { state: CellState::DeathBomb, hidden: false });
    assert_eq!(*f.cell_at(1, 0), Cell { state: CellState::Bomb, hidden: false });
    let lost = f.render();
    f.press(1, 0);
    assert_eq!(*f.cell_at(0, 0), Cell { state: CellState::DeathBomb, hidden: false });
    assert_eq!(*f.cell_at(1, 0), Cell { state: CellState::Bomb, hidden: false });
    assert_eq!(f.render(), lost);
    assert_eq!(f.n_hidden(), 0);
    assert_eq!(f.n_bombs(), 2);
    f.press(0, 0);
    assert_eq!(f.render(), lost);
}

#[test]
fn press_after_a_win_changes_nothing() {
    let mut f = Field::with_bombs((2, 1), &vec![1]).unwrap();
    f.press(0, 0);
    assert_eq!(*f.cell_at(0, 0), Cell { state: CellState::Value(1), hidden: false });
    assert_eq!(*f.cell_at(1, 0), Cell { state: CellState::Bomb, hidden: false });
    let won = f.render();
    f.press(1, 0);
    assert_eq!(*f.cell_at(1, 0), Cell { state: CellState::Bomb, hidden: false });
    assert_eq!(f.render(), won);
    assert_eq!(f.n_hidden(), 0);
    f.press(0, 0);
    assert_eq!(f.render(), won);
}

#[test]
fn mouse_click_after_a_loss_marks_no_second_bomb() {
    let mut f = Field::with_bombs((4, 3), &vec![0, 2, 10]).unwrap();
    f.mouse_move((2 * 16 + 1, 1));
    f.mouse_click(&Button::MouseLeft);
    assert_eq!(f.cell_at(2, 0).state, CellState::DeathBomb);
    let lost = f.render();
    for at in [(0u32, 0u32), (2 * 16, 2 * 16), (2 * 16 + 1, 1), (16, 16)] {
        f.mouse_move(at);
        f.mouse_click(&Button::MouseLeft);
        assert_eq!(f.render(), lost);
    }
    let mut went_off = 0;
    for y in 0..3 {
        for x in 0..4 {
            if f.cell_at(x, y).state == CellState::DeathBomb {
                went_off += 1;
            }
        }
    }
    assert_eq!(went_off, 1);
    assert_eq!(f.cell_at(0, 0).state, CellState::Bomb);
    assert_eq!(f.cell_at(2, 2).state, CellState::Bomb);
}

#[test]
fn mouse_click_after_a_win_sets_off_no_bomb() {
    let mut f = Field::with_bombs((5, 4), &vec![19]).unwrap();
    f.mouse_move((0, 0));
    f.mouse_click(&Button::MouseLeft);
    assert_eq!(hidden_cells(&f), 0);
    let won = f.render();
    f.mouse_move((4 * 16 + 8, 3 * 16 + 8));
    f.mouse_click(&Button::MouseLeft);
    assert_eq!(f.cell_at(4, 3).state, CellState::Bomb);
    assert_eq!(f.render(), won);
}

#[test]
fn mouse_click_reset_key_lets_the_game_go_on_after_its_end() {
    let mut f = Field::with_bombs((3, 3), &vec![4]).unwrap();
    f.press(1, 1);
    assert_eq!(f.n_hidden(), 0);
    f.mouse_click(&Button::KeyR);
    assert_eq!(f.n_hidden(), 9);
    assert_eq!(bomb_cells(&f), 1);
    let (mut x, mut y) = (0, 0);
    for qy in 0..3 {
        for qx in 0..3 {
            if f.cell_at(qx, qy).state != CellState::Bomb {
                x = qx;
                y = qy;
            }
        }
    }
    f.press(x, y);
    assert!(!f.cell_at(x, y).hidden);
    assert!(f.n_hidden() < 9);
}

#[test]
fn new_draws_different_fields() {
    let mut rng = rand::thread_rng();
    let first = Field::new(&mut rng, (16, 16), 40).unwrap();
    let mut differs = false;
    for _ in 0..8 {
        let next = Field::new(&mut rng, (16, 16), 40).unwrap();
        for y in 0..16 {
            for x in 0..16 {
                if first.cell_at(x, y).state != next.cell_at(x, y).state {
                    differs = true;
                }
            }
        }
    }
    assert!(differs);
}
