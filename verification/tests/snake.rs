use deeper::commands::{CommandManager, KEY_DOWN, KEY_P};
use deeper::input::{ElementState, InputState};
use deeper::snake::{clear_board, snake_game, BoardState, Direction, SnakeBoard};

fn body(b: &SnakeBoard) -> Vec<(usize, usize)> {
    (0..b.snake_len()).map(|i| b.snake_at(i)).collect()
}

#[test]
fn cleared_board_is_walled() {
    let board = clear_board();
    assert_eq!(board.len(), 256);
    for i in 0..16 {
        for j in 0..16 {
            let expected = if i == 0 || i == 15 || j == 0 || j == 15 {
                BoardState::Wall
            } else {
                BoardState::Empty
            };
            assert_eq!(board[i * 16 + j], expected);
        }
    }
}

#[test]
fn a_new_game_shows_snake_and_food() {
    let b = SnakeBoard::new();
    assert_eq!(body(&b), vec![(4, 5), (4, 4)]);
    assert_eq!(b.player_dir(), Direction::Right);
    assert_eq!(b.new_dir(), Direction::Right);
    assert_eq!(b.cell_at(4, 5), BoardState::Snake);
    assert_eq!(b.cell_at(4, 4), BoardState::Snake);
    assert_eq!(b.cell_at(0, 7), BoardState::Wall);
    assert_eq!(b.cell_at(15, 15), BoardState::Wall);
    let f = b.food().unwrap();
    assert!(1 <= f.0 && f.0 < 15 && 1 <= f.1 && f.1 < 15);
    assert!(f != (4, 5) && f != (4, 4));
    assert_eq!(b.cell_at(f.0, f.1), BoardState::Food);
}

#[test]
fn the_snake_moves_and_refuses_to_reverse() {
    let mut b = SnakeBoard::new();
    // ask for a reversal: the snake keeps heading right
    b.set_new_dir(Direction::Left);
    let had_food_ahead = b.food() == Some((4, 6));
    b.advance();
    assert_eq!(b.player_dir(), Direction::Right);
    assert_eq!(b.snake_at(0), (4, 6));
    if !had_food_ahead {
        assert_eq!(body(&b), vec![(4, 6), (4, 5)]);
        assert_eq!(b.cell_at(4, 4), BoardState::Empty);
    } else {
        assert_eq!(body(&b), vec![(4, 6), (4, 5), (4, 5)]);
    }
}

#[test]
fn turning_up_moves_to_the_row_above() {
    let mut b = SnakeBoard::new();
    b.set_new_dir(Direction::Up);
    b.advance();
    assert_eq!(b.player_dir(), Direction::Up);
    assert_eq!(b.snake_at(0), (3, 5));
}

#[test]
fn running_into_the_wall_starts_over() {
    let mut b = SnakeBoard::new();
    b.set_new_dir(Direction::Up);
    let mut restarted = false;
    for _ in 0..20 {
        let head = b.snake_at(0);
        b.advance();
        if head.0 == 1 && b.player_dir() == Direction::Right && b.snake_len() == 2 && b.snake_at(0) == (4, 5) {
            restarted = true;
            break;
        }
        // keep heading up
        b.set_new_dir(Direction::Up);
    }
    assert!(restarted);
    assert_eq!(body(&b), vec![(4, 5), (4, 4)]);
    assert_eq!(b.new_dir(), Direction::Right);
}

#[test]
fn eating_grows_the_snake() {
    // steer towards the food until it is eaten
    let mut b = SnakeBoard::new();
    let mut grown = false;
    for _ in 0..200 {
        let len = b.snake_len();
        let head = b.snake_at(0);
        let food = b.food().unwrap();
        let want = if food.0 < head.0 {
            Direction::Up
        } else if food.0 > head.0 {
            Direction::Down
        } else if food.1 < head.1 {
            Direction::Left
        } else {
            Direction::Right
        };
        b.set_new_dir(want);
        b.advance();
        if b.snake_len() == len + 1 {
            let n = b.snake_len();
            assert_eq!(b.snake_at(n - 1), b.snake_at(n - 2));
            assert!(b.food() != Some(b.snake_at(0)));
            grown = true;
            break;
        }
    }
    assert!(grown);
}

#[test]
fn the_game_only_runs_while_switched_on() {
    let mut commands = CommandManager::default_bindings();
    let mut board = SnakeBoard::new();
    assert!(!snake_game(&mut board, &commands, 1000));
    assert_eq!(body(&board), vec![(4, 5), (4, 4)]);

    let mut input = InputState::new();
    input.update_from_key(KEY_P, ElementState::Pressed);
    input.update_from_key(KEY_DOWN, ElementState::Pressed);
    commands.update(&input);
    // too soon: only the direction changes
    assert!(!snake_game(&mut board, &commands, 150));
    assert_eq!(board.new_dir(), Direction::Down);
    assert_eq!(body(&board), vec![(4, 5), (4, 4)]);
    assert!(snake_game(&mut board, &commands, 201));
    assert_eq!(board.snake_at(0), (5, 5));
    assert_eq!(board.player_dir(), Direction::Down);
}

#[test]
fn squares_print_as_symbols() {
    assert_eq!(BoardState::Empty.symbol(), ' ');
    assert_eq!(BoardState::Snake.symbol(), '*');
    assert_eq!(BoardState::Food.symbol(), '%');
    assert_eq!(BoardState::Wall.symbol(), '#');
}
