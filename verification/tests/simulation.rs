use langton::ant::{Ant, Direction};
use langton::board::{Board, Color, Pos};
use langton::game::Game;

#[test]
fn test_board() {
    let mut board = Board::new();
    assert_eq!(board.get_color(&(512, 512)), Color::White);
    board.set_color(&(512, 512), Color::Black);
    assert_eq!(board.get_color(&(512, 512)), Color::Black);
    board.set_color(&(512, 512), Color::White);
    assert_eq!(board.get_color(&(512, 512)), Color::White);
    assert_eq!(board.inbound(&(0, 0)), false);
    assert_eq!(board.inbound(&(1, 1)), true);
    assert_eq!(board.inbound(&(1024, 1024)), true);
    assert_eq!(board.inbound(&(1025, 1024)), false);
}

fn offset_and_bitshift(pos: &Pos) -> (usize, usize) {
    (Board::offset(pos), Board::bitshift(pos))
}

#[test]
fn test_bitboard() {
    assert_eq!(offset_and_bitshift(&(1, 1)), (0, 7));
    assert_eq!(offset_and_bitshift(&(2, 1)), (0, 6));
    assert_eq!(offset_and_bitshift(&(1024, 1)), (127, 0));
    assert_eq!(offset_and_bitshift(&(15, 3)), (257, 1));
    assert_eq!(offset_and_bitshift(&(1, 1024)), (130944, 7));
    assert_eq!(offset_and_bitshift(&(1024, 1024)), (131071, 0));
}

#[test]
fn test_step() {
    let board = Board::new();
    let ant = Ant::new();
    let mut game = Game::new(board, ant);

    game.step();
    assert_eq!(game.age, 1);
    assert_eq!(game.ant.direction, Direction::Right);
    assert_eq!(game.ant.pos, (512, 511));
    assert_eq!(game.board.get_color(&(512, 511)), Color::Black);

    game.step();
    assert_eq!(game.ant.direction, Direction::Down);
    assert_eq!(game.ant.pos, (513, 511));
    assert_eq!(game.board.get_color(&(513, 511)), Color::Black);

    game.step();
    game.step();
    game.step();
    assert_eq!(game.ant.direction, Direction::Left);
    assert_eq!(game.ant.pos, (512, 511));
    assert_eq!(game.board.get_color(&(512, 511)), Color::White);
}

#[test]
fn test_play() {
    let board = Board::new();
    let ant = Ant::new();
    let mut game = Game::new(board, ant);

    game.play(5);
    assert_eq!(game.age, 5);
    assert_eq!(game.ant.direction, Direction::Left);
    assert_eq!(game.ant.pos, (512, 511));
    assert_eq!(game.board.get_color(&(512, 511)), Color::White);
    assert_eq!(game.black_count, 3);
}
