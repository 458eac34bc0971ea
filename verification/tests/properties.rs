use langton::ant::{Ant, Direction};
use langton::board::{Board, Color};
use langton::game::Game;

#[test]
fn test_initial_state() {
    let board = Board::new();
    for &pos in &[(1, 1), (2, 1), (1024, 1), (1, 1024), (1024, 1024), (512, 512), (15, 3)] {
        assert_eq!(board.get_color(&pos), Color::White);
    }
    let ant = Ant::new();
    assert_eq!(ant.direction, Direction::Up);
    assert_eq!(ant.pos, (512, 512));
}

#[test]
fn test_set_get_round_trip() {
    let mut board = Board::new();
    for &pos in &[(1, 1), (1024, 1), (1, 1024), (1024, 1024), (15, 3), (16, 3), (8, 8)] {
        board.set_color(&pos, Color::Black);
        assert_eq!(board.get_color(&pos), Color::Black);
        board.set_color(&pos, Color::White);
        assert_eq!(board.get_color(&pos), Color::White);
    }
}

#[test]
fn test_set_leaves_other_cells() {
    let mut board = Board::new();
    board.set_color(&(15, 3), Color::Black);
    for x in 1..=1024usize {
        for y in 1..=1024usize {
            let expected = if (x, y) == (15, 3) { Color::Black } else { Color::White };
            assert_eq!(board.get_color(&(x, y)), expected);
        }
    }
}

#[test]
fn test_turn_rule_pair() {
    // Entering a White cell flips it to Black and turns clockwise.
    let board = Board::new();
    let ant = Ant {
        direction: Direction::Down,
        pos: (100, 100),
    };
    let mut game = Game::new(board, ant);
    assert_eq!(game.step(), Some(()));
    assert_eq!(game.ant.pos, (100, 101));
    assert_eq!(game.ant.direction, Direction::Left);
    assert_eq!(game.board.get_color(&(100, 101)), Color::Black);

    // Entering the same, now Black, cell from the same facing flips it back
    // to White and turns counter-clockwise: the inverse rotation.
    let mut board2 = Board::new();
    board2.set_color(&(100, 101), Color::Black);
    let ant2 = Ant {
        direction: Direction::Down,
        pos: (100, 100),
    };
    let mut game2 = Game::new(board2, ant2);
    game2.black_count = 1;
    assert_eq!(game2.step(), Some(()));
    assert_eq!(game2.ant.pos, (100, 101));
    assert_eq!(game2.ant.direction, Direction::Right);
    assert_eq!(game2.board.get_color(&(100, 101)), Color::White);
    assert_eq!(game2.black_count, 0);
}

#[test]
fn test_boundary_termination() {
    // One cell from the top edge, facing it: the first attempt fails.
    let board = Board::new();
    let ant = Ant {
        direction: Direction::Up,
        pos: (5, 1),
    };
    let mut game = Game::new(board, ant);
    assert_eq!(game.play(10), None);
    assert_eq!(game.age, 1);
    assert_eq!(game.ant.pos, (5, 1));
    assert_eq!(game.ant.direction, Direction::Up);
    assert_eq!(game.black_count, 0);
    assert_eq!(game.board.get_color(&(5, 1)), Color::White);

    // The same at the bottom edge, facing Down.
    let board2 = Board::new();
    let ant2 = Ant {
        direction: Direction::Down,
        pos: (512, 1024),
    };
    let mut game2 = Game::new(board2, ant2);
    assert_eq!(game2.play(7), None);
    assert_eq!(game2.age, 1);
    assert_eq!(game2.ant.pos, (512, 1024));
    assert_eq!(game2.ant.direction, Direction::Down);
}

#[test]
fn test_play_full_budget() {
    let board = Board::new();
    let ant = Ant::new();
    let mut game = Game::new(board, ant);
    assert_eq!(game.play(100), Some(()));
    assert_eq!(game.age, 100);
}

#[test]
fn test_conservation_scan() {
    let board = Board::new();
    let ant = Ant::new();
    let mut game = Game::new(board, ant);
    game.play(1000);
    let mut scanned: u64 = 0;
    for x in 1..=1024usize {
        for y in 1..=1024usize {
            if game.board.get_color(&(x, y)) == Color::Black {
                scanned += 1;
            }
        }
    }
    assert_eq!(scanned, game.black_count);
}

#[test]
fn test_export_bits() {
    let mut board = Board::new();
    let fresh = board.as_png_data();
    assert_eq!(fresh.len(), 131072);
    assert!(fresh.iter().all(|&b| b == 0xFF));

    // (1,1) sits in byte 0 at bit 7 (most significant); Black clears it.
    board.set_color(&(1, 1), Color::Black);
    // (1024,1024) sits in the last byte at bit 0 (least significant).
    board.set_color(&(1024, 1024), Color::Black);
    let data = board.as_png_data();
    assert_eq!(data[0], 0x7F);
    assert_eq!(data[131071], 0xFE);
    assert!(data[1..131071].iter().all(|&b| b == 0xFF));
}
