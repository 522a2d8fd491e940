use sudoku_board::game_board::{BlankCell, Cell, GameBoard};
use sudoku_board::utils::{BitMap, Coord};

fn blank(answer: u8) -> Cell {
    Cell::Blank(BlankCell::new(answer).unwrap())
}

/// A grid of blank squares whose expected digits form a solved sudoku.
fn solved_grid() -> [[Cell; 9]; 9] {
    let mut grid = [[blank(1); 9]; 9];
    for r in 0..9 {
        for c in 0..9 {
            let digit = ((r * 3 + r / 3 + c) % 9 + 1) as u8;
            grid[r][c] = blank(digit);
        }
    }
    grid
}

fn board_with_clues(clues: &[(usize, usize)]) -> GameBoard {
    let mut grid = solved_grid();
    for &(r, c) in clues {
        let digit = ((r * 3 + r / 3 + c) % 9 + 1) as u8;
        grid[r][c] = Cell::Printed(digit);
    }
    GameBoard::new(grid).unwrap()
}

fn square(board: &GameBoard, x: usize, y: usize) -> BlankCell {
    match board.get_cell(x, y) {
        Cell::Blank(c) => *c,
        Cell::Printed(_) => panic!("a clue stands at ({}, {})", x, y),
    }
}

fn marks_at(board: &GameBoard, x: usize, y: usize) -> Vec<u8> {
    let s = square(board, x, y).candidates();
    (1..=9u8).filter(|d| s.contains(*d)).collect()
}

fn struck_out_at(board: &GameBoard, x: usize, y: usize) -> Vec<u8> {
    let s = square(board, x, y).user_deleted();
    (1..=9u8).filter(|d| s.contains(*d)).collect()
}

fn snapshot(board: &GameBoard) -> Vec<Cell> {
    let mut cells = Vec::new();
    for r in 0..9 {
        for c in 0..9 {
            cells.push(*board.get_cell(r, c));
        }
    }
    cells
}

#[test]
fn new_rejects_a_clue_that_is_no_digit() {
    let mut grid = solved_grid();
    grid[3][3] = Cell::Printed(0);
    assert!(GameBoard::new(grid).is_none());
    let mut grid = solved_grid();
    grid[8][8] = Cell::Printed(10);
    assert!(GameBoard::new(grid).is_none());
    let mut grid = solved_grid();
    grid[0][0] = Cell::Printed(9);
    assert!(GameBoard::new(grid).is_some());
}

#[test]
fn new_keeps_every_square() {
    let mut grid = solved_grid();
    grid[2][5] = Cell::Printed(4);
    let board = GameBoard::new(grid).unwrap();
    for r in 0..9 {
        for c in 0..9 {
            assert_eq!(*board.get_cell(r, c), grid[r][c]);
        }
    }
}

#[test]
fn check_cell_collision_sees_clues_and_pen_marks() {
    let mut board = board_with_clues(&[(0, 0)]);
    assert_eq!(board.check_cell_collision(0, 0, 1), Some((0, 0)));
    assert_eq!(board.check_cell_collision(0, 0, 2), None);
    assert_eq!(board.check_cell_collision(4, 4, 5), None);
    board.add_pencil_mark(4, 4, 5);
    assert_eq!(board.check_cell_collision(4, 4, 5), None);
    board.add_pen_mark(4, 4, 5);
    assert_eq!(board.check_cell_collision(4, 4, 5), Some((4, 4)));
    assert_eq!(board.check_cell_collision(4, 4, 6), None);
    assert_eq!(board.check_cell_collision(4, 4, 0), None);
}

#[test]
fn check_clue_collision_lists_the_peers_that_show_the_digit() {
    let mut grid = solved_grid();
    grid[4][0] = Cell::Printed(7);
    grid[0][4] = Cell::Printed(7);
    grid[5][5] = Cell::Printed(7);
    grid[4][4] = Cell::Printed(7);
    grid[8][8] = Cell::Printed(7);
    grid[4][8] = Cell::Printed(2);
    let mut board = GameBoard::new(grid).unwrap();
    board.add_pen_mark(4, 6, 7);
    board.add_pen_mark(3, 3, 2);
    assert_eq!(board.check_clue_collision(4, 4, 7), vec![(4, 0), (4, 6), (0, 4), (5, 5)]);
    assert_eq!(board.check_clue_collision(4, 4, 2), vec![(4, 8), (3, 3)]);
    assert_eq!(board.check_clue_collision(4, 4, 9), Vec::<(usize, usize)>::new());
    assert_eq!(board.check_pencil_mark_addition_collision(4, 4, 7), board.check_clue_collision(4, 4, 7));
}

#[test]
fn check_clue_collision_stays_within_the_peers() {
    let mut grid = solved_grid();
    for r in 0..9 {
        for c in 0..9 {
            if (r + c) % 2 == 0 {
                grid[r][c] = Cell::Printed(6);
            }
        }
    }
    let board = GameBoard::new(grid).unwrap();
    for x in 0..9 {
        for y in 0..9 {
            let found = board.check_clue_collision(x, y, 6);
            let peers = Coord::peers(x, y);
            let expected: Vec<(usize, usize)> =
                peers.iter().copied().filter(|q| (q.0 + q.1) % 2 == 0).collect();
            assert_eq!(found, expected);
            assert!(!found.contains(&(x, y)));
        }
    }
}

#[test]
fn check_pencil_mark_deletion_error_flags_the_expected_digit() {
    let board = board_with_clues(&[(0, 0)]);
    let expected = square(&board, 0, 1).answer();
    assert_eq!(expected, 2);
    assert!(board.check_pencil_mark_deletion_error(0, 1, 2));
    assert!(!board.check_pencil_mark_deletion_error(0, 1, 3));
    assert!(!board.check_pencil_mark_deletion_error(0, 0, 1));
}

#[test]
fn check_pen_mark_addition_error_never_flags_the_expected_digit() {
    let mut board = board_with_clues(&[(0, 0), (4, 4), (8, 8)]);
    board.add_pen_mark(0, 5, 2);
    for x in 0..9 {
        for y in 0..9 {
            if let Cell::Blank(c) = board.get_cell(x, y) {
                let expected = c.answer();
                assert_eq!(board.check_pen_mark_addition_error(x, y, expected), None);
            }
        }
    }
}

#[test]
fn check_pen_mark_addition_error_lists_the_collisions_of_a_wrong_digit() {
    let mut board = board_with_clues(&[(0, 0)]);
    assert_eq!(board.check_pen_mark_addition_error(0, 1, 1), Some(vec![(0, 0)]));
    assert_eq!(board.check_pen_mark_addition_error(0, 1, 9), Some(vec![]));
    board.add_pen_mark(1, 1, 9);
    assert_eq!(board.check_pen_mark_addition_error(0, 1, 9), Some(vec![(1, 1)]));
    assert_eq!(board.check_pen_mark_addition_error(0, 0, 5), None);
    assert_eq!(board.check_pen_mark_addition_error(0, 0, 1), None);
}

#[test]
fn add_then_erase_pencil_mark_restores_the_candidates() {
    let mut board = board_with_clues(&[(0, 0)]);
    board.add_pencil_mark(2, 2, 4);
    board.add_pencil_mark(2, 2, 6);
    let before = snapshot(&board);
    board.add_pencil_mark(2, 2, 8);
    assert_eq!(marks_at(&board, 2, 2), vec![4, 6, 8]);
    board.erase_pencil_mark(2, 2, 8);
    assert_eq!(marks_at(&board, 2, 2), vec![4, 6]);
    assert_eq!(struck_out_at(&board, 2, 2), vec![8]);
    let after = snapshot(&board);
    for i in 0..81 {
        if i != 2 * 9 + 2 {
            assert_eq!(after[i], before[i]);
        }
    }
}

#[test]
fn erase_then_add_pencil_mark_clears_the_deletion() {
    let mut board = board_with_clues(&[(0, 0)]);
    board.add_pencil_mark(2, 2, 8);
    board.erase_pencil_mark(2, 2, 8);
    assert_eq!(struck_out_at(&board, 2, 2), vec![8]);
    board.add_pencil_mark(2, 2, 8);
    assert_eq!(struck_out_at(&board, 2, 2), Vec::<u8>::new());
    assert_eq!(marks_at(&board, 2, 2), vec![8]);
    board.erase_pencil_mark(2, 2, 5);
    board.add_pencil_mark(2, 2, 5);
    assert_eq!(struck_out_at(&board, 2, 2), Vec::<u8>::new());
    assert_eq!(marks_at(&board, 2, 2), vec![5, 8]);
}

#[test]
fn pencil_marks_on_a_clue_do_nothing() {
    let mut board = board_with_clues(&[(0, 0)]);
    let before = snapshot(&board);
    board.add_pencil_mark(0, 0, 3);
    board.erase_pencil_mark(0, 0, 3);
    board.add_pen_mark(0, 0, 3);
    let collisions = board.erase_pen_mark(0, 0);
    assert_eq!(collisions, Vec::<(usize, usize)>::new());
    assert_eq!(snapshot(&board), before);
}

#[test]
fn erase_pencil_mark_of_an_absent_digit_does_nothing() {
    let mut board = board_with_clues(&[]);
    board.add_pencil_mark(1, 1, 3);
    let before = snapshot(&board);
    board.erase_pencil_mark(1, 1, 4);
    board.erase_pencil_mark(1, 1, 0);
    board.erase_pencil_mark(1, 1, 200);
    assert_eq!(snapshot(&board), before);
}

#[test]
fn add_pen_mark_prunes_the_digit_from_every_peer() {
    let mut board = board_with_clues(&[(4, 0)]);
    for r in 0..9 {
        for c in 0..9 {
            if (r, c) != (4, 0) {
                board.add_pencil_mark(r, c, 5);
                board.add_pencil_mark(r, c, 6);
            }
        }
    }
    board.add_pen_mark(3, 4, 9);
    let before = snapshot(&board);
    board.add_pen_mark(4, 4, 5);
    let peers = Coord::peers(4, 4);
    for r in 0..9 {
        for c in 0..9 {
            if (r, c) == (4, 4) {
                let s = square(&board, r, c);
                assert_eq!(s.committed(), Some(5));
                assert_eq!(marks_at(&board, r, c), vec![5, 6]);
            } else if (r, c) == (4, 0) {
                assert_eq!(*board.get_cell(r, c), Cell::Printed(5));
            } else if peers.contains(&(r, c)) {
                assert_eq!(marks_at(&board, r, c), vec![6]);
                assert_eq!(struck_out_at(&board, r, c), Vec::<u8>::new());
            } else {
                assert_eq!(*board.get_cell(r, c), before[r * 9 + c]);
            }
        }
    }
    assert_eq!(square(&board, 3, 4).committed(), Some(9));
}

#[test]
fn erase_pen_mark_without_a_pen_mark_does_nothing() {
    let mut board = board_with_clues(&[(0, 0)]);
    board.add_pencil_mark(0, 1, 1);
    board.add_pencil_mark(0, 2, 1);
    let before = snapshot(&board);
    let collisions = board.erase_pen_mark(0, 1);
    assert_eq!(collisions, Vec::<(usize, usize)>::new());
    assert_eq!(snapshot(&board), before);
}

#[test]
fn erase_pen_mark_rebuilds_the_candidates_of_the_square() {
    let mut grid = solved_grid();
    grid[4][1] = Cell::Printed(3);
    grid[7][4] = Cell::Printed(8);
    grid[5][5] = Cell::Printed(1);
    grid[0][0] = Cell::Printed(6);
    let mut board = GameBoard::new(grid).unwrap();
    board.add_pencil_mark(4, 4, 2);
    board.add_pencil_mark(4, 4, 9);
    board.erase_pencil_mark(4, 4, 9);
    board.add_pencil_mark(4, 4, 3);
    board.erase_pencil_mark(4, 4, 3);
    board.add_pen_mark(4, 4, 7);
    board.add_pen_mark(4, 5, 4);
    board.erase_pen_mark(4, 4);
    let s = square(&board, 4, 4);
    assert_eq!(s.committed(), None);
    // The clues 3, 8 and 1 among the peers are ruled out; the pen mark 4 of
    // a peer is not. What the square held in pencil before does not count.
    assert_eq!(marks_at(&board, 4, 4), vec![2, 4, 5, 6, 7, 9]);
    // 9 is a candidate again and so no longer struck out; 3 still is.
    assert_eq!(struck_out_at(&board, 4, 4), vec![3]);
}

#[test]
fn erase_pen_mark_narrows_the_peers_by_the_clues_passed_so_far() {
    let mut grid = solved_grid();
    grid[4][2] = Cell::Printed(3);
    grid[6][4] = Cell::Printed(8);
    let mut board = GameBoard::new(grid).unwrap();
    for &(r, c) in &[(4, 0), (4, 3), (2, 4), (7, 4), (3, 3), (0, 0)] {
        board.add_pencil_mark(r, c, 3);
        board.add_pencil_mark(r, c, 8);
        board.add_pencil_mark(r, c, 1);
    }
    board.add_pen_mark(4, 4, 9);
    board.erase_pen_mark(4, 4);
    // Before the clue 3 of the row is reached nothing is ruled out.
    assert_eq!(marks_at(&board, 4, 0), vec![1, 3, 8]);
    // After it, 3 is.
    assert_eq!(marks_at(&board, 4, 3), vec![1, 8]);
    assert_eq!(marks_at(&board, 2, 4), vec![1, 8]);
    // After the clue 8 of the column, 8 is ruled out too.
    assert_eq!(marks_at(&board, 7, 4), vec![1]);
    assert_eq!(marks_at(&board, 3, 3), vec![1]);
    // A square that is no peer keeps its marks.
    assert_eq!(marks_at(&board, 0, 0), vec![1, 3, 8]);
    // Narrowing by the scan never counts as a deletion by the player.
    assert_eq!(struck_out_at(&board, 7, 4), Vec::<u8>::new());
}

#[test]
fn erase_pen_mark_reports_the_peers_whose_expected_digit_is_ruled_out() {
    let mut grid = [[blank(1); 9]; 9];
    grid[4][1] = Cell::Printed(8);
    grid[4][6] = Cell::Printed(5);
    grid[4][0] = blank(8);
    grid[4][3] = blank(8);
    grid[4][5] = blank(5);
    grid[4][7] = blank(5);
    grid[7][4] = blank(5);
    grid[5][5] = blank(8);
    grid[0][0] = blank(8);
    let mut board = GameBoard::new(grid).unwrap();
    board.add_pen_mark(4, 4, 1);
    let collisions = board.erase_pen_mark(4, 4);
    // (4, 0) comes before the clue 8, and (4, 5) before the clue 5; (0, 0)
    // is no peer.
    assert_eq!(collisions, vec![(4, 3), (4, 7), (7, 4), (5, 5)]);
}

#[test]
fn pen_mark_round_trip_restores_the_peers() {
    let mut grid = [[blank(1); 9]; 9];
    grid[4][2] = Cell::Printed(9);
    grid[6][4] = Cell::Printed(2);
    let mut board = GameBoard::new(grid).unwrap();
    // No peer pencils the clues 9 and 2, nor the digit that goes in pen.
    for q in Coord::peers(4, 4) {
        if let Cell::Blank(_) = board.get_cell(q.0, q.1) {
            board.add_pencil_mark(q.0, q.1, 1);
            board.add_pencil_mark(q.0, q.1, 4);
            board.add_pencil_mark(q.0, q.1, 6);
            board.erase_pencil_mark(q.0, q.1, 6);
        }
    }
    board.add_pen_mark(4, 8, 3);
    let before = snapshot(&board);
    board.add_pen_mark(4, 4, 5);
    board.erase_pen_mark(4, 4);
    let after = snapshot(&board);
    for q in Coord::peers(4, 4) {
        assert_eq!(after[q.0 * 9 + q.1], before[q.0 * 9 + q.1]);
    }
    for r in 0..9 {
        for c in 0..9 {
            if (r, c) != (4, 4) {
                assert_eq!(after[r * 9 + c], before[r * 9 + c]);
            }
        }
    }
}

#[test]
fn pen_mark_round_trip_does_not_pencil_the_digit_back_in() {
    let mut grid = [[blank(1); 9]; 9];
    grid[4][2] = Cell::Printed(9);
    let mut board = GameBoard::new(grid).unwrap();
    board.add_pencil_mark(4, 0, 5);
    board.add_pencil_mark(4, 0, 9);
    board.add_pencil_mark(4, 3, 5);
    board.add_pencil_mark(4, 3, 9);
    board.add_pencil_mark(4, 3, 2);
    board.add_pen_mark(4, 4, 5);
    board.erase_pen_mark(4, 4);
    // 5 was pruned by the pen mark and stays out.
    assert_eq!(marks_at(&board, 4, 0), vec![9]);
    // (4, 3) comes after the clue 9, which the erasure rules out there.
    assert_eq!(marks_at(&board, 4, 3), vec![2]);
}

#[test]
fn single_clue_scenario() {
    let mut grid = [[blank(1); 9]; 9];
    grid[0][0] = Cell::Printed(5);
    grid[0][1] = blank(3);
    let mut board = GameBoard::new(grid).unwrap();
    assert_eq!(board.check_pencil_mark_addition_collision(0, 1, 5), vec![(0, 0)]);

    board.add_pencil_mark(0, 2, 3);
    board.add_pencil_mark(0, 2, 4);
    assert_eq!(marks_at(&board, 0, 2), vec![3, 4]);
    assert_eq!(board.check_pen_mark_addition_error(0, 1, 3), None);
    board.add_pen_mark(0, 1, 3);
    assert_eq!(square(&board, 0, 1).committed(), Some(3));
    assert_eq!(marks_at(&board, 0, 2), vec![4]);
    assert_eq!(struck_out_at(&board, 0, 2), Vec::<u8>::new());

    let collisions = board.erase_pen_mark(0, 1);
    assert_eq!(collisions, Vec::<(usize, usize)>::new());
    assert_eq!(square(&board, 0, 1).committed(), None);
    // The digit is a candidate of the square again: only the clue is ruled out.
    assert_eq!(marks_at(&board, 0, 1), vec![1, 2, 3, 4, 6, 7, 8, 9]);
    // The erasure only ever narrows the peers: what the pen mark pruned
    // there is for the player to pencil in again.
    assert_eq!(marks_at(&board, 0, 2), vec![4]);
    board.add_pencil_mark(0, 2, 3);
    assert_eq!(marks_at(&board, 0, 2), vec![3, 4]);
}
