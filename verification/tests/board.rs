use game_of_life::{Cell, GameBoard};

fn from_2d_array(arr: &[&[Cell]]) -> GameBoard {
    let height: usize = arr.len();
    let width: usize = arr[0].len();
    let mut gameboard = GameBoard::new(width, height);

    for j in 0..arr.len() {
        for k in 0..arr[j].len() {
            if arr[j][k].is_alive() {
                gameboard.enable(k, j);
            } else {
                gameboard.disable(k, j);
            }
        }
    }
    gameboard
}

#[test]
fn it_fills_with_0() {
    let width: usize = 4;
    let height: usize = 4;
    let size: usize = width * height;

    let board = GameBoard::new(width, height);

    let mut items: usize = 0;
    let mut iter = board.into_iter();
    while iter.next().is_some() {
        items += 1;
    }
    assert_eq!(size, items);
    assert_eq!(size, board.size());
    for y in 0..height {
        for x in 0..width {
            assert_eq!(Some(Cell(false)), board.get(x, y));
        }
    }
}

#[test]
fn it_gets_neighbors() {
    let board = from_2d_array(&[
        &[Cell(true), Cell(false), Cell(true)],
        &[Cell(false), Cell(true), Cell(false)],
        &[Cell(true), Cell(false), Cell(true)],
    ]);

    let neighbors = board.get_neighbors(1, 1).unwrap();
    assert_eq!(neighbors[0], Some(Cell(true)));
    assert_eq!(neighbors[1], Some(Cell(false)));
    assert_eq!(neighbors[2], Some(Cell(true)));
    assert_eq!(neighbors[3], Some(Cell(false)));
    assert_eq!(neighbors[4], None);
    assert_eq!(neighbors[5], Some(Cell(false)));
    assert_eq!(neighbors[6], Some(Cell(true)));
    assert_eq!(neighbors[7], Some(Cell(false)));
    assert_eq!(neighbors[8], Some(Cell(true)));
}

#[test]
fn it_enables() {
    let mut board = GameBoard::new(3, 3);
    board.enable(1, 1);

    assert_eq!(Some(Cell(true)), board.get(1, 1));
}

#[test]
fn it_disables() {
    let mut board = GameBoard::new(3, 3);
    for y in 0..3 {
        for x in 0..3 {
            board.enable(x, y);
        }
    }

    board.disable(1, 1);
    assert_eq!(Some(Cell(false)), board.get(1, 1))
}

#[test]
fn it_gets_next_state() {
    let mut board = GameBoard::new(3, 3);
    board
        .enable(0, 0)
        .enable(1, 0)
        .enable(0, 1)
        .enable(1, 1)
        .enable(2, 2);

    let expected_state: &[&[Cell]] = &[
        &[Cell(true), Cell(true), Cell(false)],
        &[Cell(true), Cell(false), Cell(true)],
        &[Cell(false), Cell(true), Cell(false)],
    ];

    board.next();

    for i in 0..9 {
        assert_eq!(expected_state[i % 3][i / 3], board.get(i % 3, i / 3).unwrap());
    }
}

#[test]
fn out_of_bounds_get_is_absent() {
    let board = GameBoard::new(4, 3);
    assert_eq!(None, board.get(4, 0));
    assert_eq!(None, board.get(0, 3));
    assert_eq!(None, board.get(100, 100));
    assert_eq!(None, board.get(usize::MAX, usize::MAX));
}

#[test]
fn out_of_bounds_writes_are_no_ops() {
    let mut board = GameBoard::new(4, 3);
    board.enable(1, 1);
    board.enable(2, 2);

    board.enable(4, 0);
    board.enable(0, 3);
    board.disable(100, 100);
    board.disable(4, 2);

    for y in 0..3 {
        for x in 0..4 {
            let expected = (x, y) == (1, 1) || (x, y) == (2, 2);
            assert_eq!(Some(Cell(expected)), board.get(x, y));
        }
    }
}

#[test]
fn size_is_invariant_under_all_operations() {
    let mut board = GameBoard::new(3, 5);
    assert_eq!(15, board.size());
    board.enable(2, 4);
    assert_eq!(15, board.size());
    board.disable(2, 4);
    assert_eq!(15, board.size());
    board.enable(100, 100);
    assert_eq!(15, board.size());
    board.next();
    assert_eq!(15, board.size());
}

#[test]
fn next_is_deterministic() {
    let mut first = GameBoard::new(5, 5);
    let mut second = GameBoard::new(5, 5);
    for (x, y) in [(1, 0), (2, 1), (0, 2), (1, 2), (2, 2)] {
        first.enable(x, y);
        second.enable(x, y);
    }

    first.next();
    second.next();

    for y in 0..5 {
        for x in 0..5 {
            assert_eq!(first.get(x, y), second.get(x, y));
        }
    }
}

#[test]
fn lone_corner_cell_dies() {
    let mut board = GameBoard::new(4, 4);
    board.enable(0, 0);

    board.next();

    assert_eq!(Some(Cell(false)), board.get(0, 0));
}

#[test]
fn block_is_a_still_life() {
    let mut board = GameBoard::new(4, 4);
    board.enable(0, 0).enable(1, 0).enable(0, 1).enable(1, 1);

    board.next();

    for y in 0..4 {
        for x in 0..4 {
            let expected = x < 2 && y < 2;
            assert_eq!(Some(Cell(expected)), board.get(x, y));
        }
    }
}

#[test]
fn glider_advances_one_generation() {
    let mut board = GameBoard::new(5, 5);
    board
        .enable(1, 0)
        .enable(2, 1)
        .enable(0, 2)
        .enable(1, 2)
        .enable(2, 2);

    board.next();

    let alive = [(0, 1), (2, 1), (1, 2), (2, 2), (1, 3)];
    for y in 0..5 {
        for x in 0..5 {
            let expected = alive.contains(&(x, y));
            assert_eq!(Some(Cell(expected)), board.get(x, y));
        }
    }
}

#[test]
fn empty_board_is_legal() {
    let mut board = GameBoard::new(0, 0);
    assert_eq!(0, board.size());
    assert_eq!(None, board.get(0, 0));
    board.enable(0, 0);
    board.next();
    assert_eq!(0, board.size());
    assert!(board.into_iter().next().is_none());

    let mut tall = GameBoard::new(0, 7);
    assert_eq!(0, tall.size());
    tall.next();
    assert_eq!(None, tall.get(0, 0));
}

#[test]
fn chained_writes_touch_one_board() {
    let mut board = GameBoard::new(3, 3);
    board.enable(0, 0).enable(1, 1).disable(0, 0).enable(2, 2);

    assert_eq!(Some(Cell(false)), board.get(0, 0));
    assert_eq!(Some(Cell(true)), board.get(1, 1));
    assert_eq!(Some(Cell(true)), board.get(2, 2));
}

#[test]
fn is_alive_reports_the_cell_state() {
    assert!(Cell(true).is_alive());
    assert!(!Cell(false).is_alive());
}
