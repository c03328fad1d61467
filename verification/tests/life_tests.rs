use piscine::life::{Board, Cell};

#[test]
fn cells_know_their_state() {
    assert!(Cell::Alive.is_alive());
    assert!(!Cell::Alive.is_dead());
    assert!(Cell::Dead.is_dead());
    assert!(!Cell::Dead.is_alive());
}

#[test]
fn random_cells_respect_sure_percentages() {
    for _ in 0..20 {
        assert!(Cell::random_cell(0).is_dead());
        assert!(Cell::random_cell(100).is_alive());
    }
}

#[test]
fn boards_wrap_around() {
    let board = Board::new(3, 2, 100);
    assert_eq!(board.width(), 3);
    assert_eq!(board.height(), 2);
    assert!(board.get(-1, -1).is_alive());
    assert!(board.get(5, 7).is_alive());
}

#[test]
fn a_full_board_stays_put_nowhere() {
    // Every cell of a full board has eight live neighbours and dies.
    let mut board = Board::new(4, 4, 100);
    board.step();
    for y in 0..4 {
        for x in 0..4 {
            assert!(board.get(x, y).is_dead());
        }
    }
}

#[test]
fn an_empty_board_stays_empty() {
    let mut board = Board::new(3, 3, 0);
    board.step();
    for y in 0..3 {
        for x in 0..3 {
            assert!(board.get(x, y).is_dead());
        }
    }
}

#[test]
fn a_block_is_a_still_life() {
    let d = Cell::Dead;
    let a = Cell::Alive;
    let cells = vec![
        d, d, d, d,
        d, a, a, d,
        d, a, a, d,
        d, d, d, d,
    ];
    let mut board = Board::from_cells(4, 4, cells.clone()).unwrap();
    board.step();
    for y in 0..4 {
        for x in 0..4 {
            assert_eq!(
                board.get(x, y),
                cells[(x + y * 4) as usize],
            );
        }
    }
}

#[test]
fn a_lone_cell_dies() {
    let d = Cell::Dead;
    let a = Cell::Alive;
    let cells = vec![d, d, d, d, a, d, d, d, d];
    let mut board = Board::from_cells(3, 3, cells).unwrap();
    board.step();
    for y in 0..3 {
        for x in 0..3 {
            assert!(board.get(x, y).is_dead());
        }
    }
}

#[test]
fn mismatched_cells_are_refused() {
    assert!(Board::from_cells(2, 2, vec![Cell::Dead; 3]).is_none());
    assert!(Board::from_cells(0, 2, vec![]).is_none());
}
