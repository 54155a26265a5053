use minesweeper::cell::{Cell, CellState};
use minesweeper::field::Field;
use minesweeper::model::Sprite;

#[test]
fn visual_index_of_a_covered_cell_is_zero() {
    for state in [CellState::Empty, CellState::Bomb, CellState::DeathBomb, CellState::Value(5)] {
        assert_eq!(Cell { state, hidden: true }.visual_index(), 0);
    }
}

#[test]
fn visual_index_of_an_uncovered_cell_follows_its_state() {
    assert_eq!(Cell { state: CellState::DeathBomb, hidden: false }.visual_index(), 1);
    assert_eq!(Cell { state: CellState::Bomb, hidden: false }.visual_index(), 2);
    assert_eq!(Cell { state: CellState::Empty, hidden: false }.visual_index(), 3);
    for n in 1..=8u8 {
        assert_eq!(Cell { state: CellState::Value(n), hidden: false }.visual_index(), 3 + n as usize);
    }
}

#[test]
fn visual_index_does_not_overflow() {
    assert_eq!(Cell { state: CellState::Value(255), hidden: false }.visual_index(), 258);
}

#[test]
fn covered_makes_a_hidden_cell() {
    assert_eq!(Cell::covered(CellState::Bomb), Cell { state: CellState::Bomb, hidden: true });
}

#[test]
fn holds_bomb_tells_bombs_from_the_rest() {
    assert!(CellState::Bomb.holds_bomb());
    assert!(CellState::DeathBomb.holds_bomb());
    assert!(!CellState::Empty.holds_bomb());
    assert!(!CellState::Value(3).holds_bomb());
}

#[test]
fn render_lists_every_cell_row_by_row() {
    let f = Field::with_bombs((3, 2), &vec![0]).unwrap();
    let v = f.render();
    assert_eq!(v.len(), 6);
    for (i, s) in v.iter().enumerate() {
        assert_eq!(*s, Sprite { x: (i % 3) as u32, y: (i / 3) as u32, tile: 0 });
    }
}

#[test]
fn render_after_a_loss_shows_every_tile() {
    // b 1 .
    // 1 1 .
    let mut f = Field::with_bombs((3, 2), &vec![0]).unwrap();
    f.press(0, 0);
    let tiles: Vec<usize> = f.render().iter().map(|s| s.tile).collect();
    assert_eq!(tiles, vec![1, 4, 3, 4, 4, 3]);
}

#[test]
fn render_shows_plain_bombs_after_a_win() {
    // b 1
    let mut f = Field::with_bombs((2, 1), &vec![0]).unwrap();
    f.press(1, 0);
    let v = f.render();
    assert_eq!(v, vec![Sprite { x: 0, y: 0, tile: 2 }, Sprite { x: 1, y: 0, tile: 4 }]);
}

#[test]
fn render_shows_what_was_uncovered_so_far() {
    // . 1 b 1 .
    let mut f = Field::with_bombs((5, 1), &vec![2]).unwrap();
    f.uncover(4, 0);
    let tiles: Vec<usize> = f.render().iter().map(|s| s.tile).collect();
    assert_eq!(tiles, vec![0, 0, 0, 4, 3]);
}
