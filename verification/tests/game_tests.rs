use tiny_terminal_snake::frame::Frame;
use tiny_terminal_snake::game::{parse_key, Game, Outcome};
use tiny_terminal_snake::snake::{Direction, Snake};
use tiny_terminal_snake::speed::Speed;
use tiny_terminal_snake::GameError;

fn no_input() -> [Option<u8>; 3] {
    [None, None, None]
}

fn arrow(code: u8) -> [Option<u8>; 3] {
    [Some(27), Some(91), Some(code)]
}

#[test]
fn parse_key_decodes_arrow_escapes() {
    assert_eq!(parse_key(&arrow(b'A')), Some(Direction::Up));
    assert_eq!(parse_key(&arrow(b'B')), Some(Direction::Down));
    assert_eq!(parse_key(&arrow(b'C')), Some(Direction::Right));
    assert_eq!(parse_key(&arrow(b'D')), Some(Direction::Left));
    assert_eq!(parse_key(&arrow(b'F')), None);
    assert_eq!(parse_key(&no_input()), None);
    assert_eq!(parse_key(&[Some(27), None, Some(b'A')]), None);
    assert_eq!(parse_key(&[Some(b'a'), Some(b'b'), Some(b'c')]), None);
}

#[test]
fn game_new_sets_up_the_start_state() {
    let (g, updates) = Game::new(20, 20).unwrap();
    assert_eq!(g.frame.row, 20);
    assert_eq!(g.frame.col, 20);
    assert_eq!(g.snake.body, vec![(1, 1), (1, 0)]);
    assert_eq!(g.count, 0);
    assert_eq!(g.speed.current, 10);
    assert!(g.food.0 < 20 && g.food.1 < 20);
    assert!(!g.snake.included(&g.food));
    assert_eq!(updates.len(), 3);
    assert_eq!(updates[0].glyph, 'x');
    assert_eq!(updates[1].up, 19);
    assert_eq!(updates[1].col, 1);
    assert_eq!(updates[1].glyph, '\u{25fc}');
    assert_eq!(updates[2].up, 19);
    assert_eq!(updates[2].col, 0);
}

#[test]
fn game_new_rejects_a_board_that_cannot_host_a_game() {
    assert_eq!(Game::new(1, 20).unwrap_err(), GameError::StartupConfig);
    assert_eq!(Game::new(20, 0).unwrap_err(), GameError::StartupConfig);
    assert_eq!(Game::new(0, 0).unwrap_err(), GameError::StartupConfig);
}

fn small_game(food: (usize, usize), count: usize) -> Game {
    Game {
        frame: Frame::new(5, 5),
        snake: Snake::new((1, 1), Direction::Right, 2),
        food,
        speed: Speed::new(2),
        count,
        heading: Direction::Right,
    }
}

#[test]
fn tick_quits_on_a_leading_q_byte() {
    let mut g = small_game((4, 4), 3);
    let (outcome, updates) = g.tick(&[Some(b'q'), None, None]);
    assert_eq!(outcome, Outcome::Quit);
    assert!(updates.is_empty());
    assert_eq!(g.count, 3);
    assert_eq!(g.snake.body, vec![(1, 1), (1, 0)]);
}

#[test]
fn tick_waits_until_the_speed_level_is_reached() {
    let mut g = small_game((4, 4), 0);
    for expected in 1..10 {
        let (outcome, updates) = g.tick(&no_input());
        assert_eq!(outcome, Outcome::Running);
        assert!(updates.is_empty());
        assert_eq!(g.count, expected);
        assert_eq!(g.snake.body, vec![(1, 1), (1, 0)]);
    }
    // The tenth tick moves the snake.
    let (outcome, updates) = g.tick(&no_input());
    assert_eq!(outcome, Outcome::Running);
    assert_eq!(g.count, 0);
    assert_eq!(g.snake.body, vec![(1, 2), (1, 1)]);
    assert_eq!(updates.len(), 3);
    // First the vacated tail cell is erased...
    assert_eq!(updates[0].up, 4);
    assert_eq!(updates[0].col, 0);
    assert_eq!(updates[0].glyph, '.');
    // ...then the body is painted, head first.
    assert_eq!(updates[1].up, 4);
    assert_eq!(updates[1].col, 2);
    assert_eq!(updates[1].glyph, '\u{25fc}');
    assert_eq!(updates[2].col, 1);
}

#[test]
fn tick_follows_the_decoded_direction() {
    let mut g = small_game((4, 4), 9);
    let (outcome, _) = g.tick(&arrow(b'B'));
    assert_eq!(outcome, Outcome::Running);
    assert_eq!(g.heading, Direction::Down);
    assert_eq!(g.snake.body, vec![(2, 1), (1, 1)]);
}

#[test]
fn tick_eats_food_grows_and_replaces_it() {
    let mut g = small_game((1, 2), 9);
    let (outcome, updates) = g.tick(&no_input());
    assert_eq!(outcome, Outcome::Running);
    assert_eq!(g.snake.body, vec![(1, 2), (1, 1), (1, 0)]);
    // New food sits on a free cell.
    assert!(g.food.0 < 5 && g.food.1 < 5);
    assert!(!g.snake.included(&g.food));
    // The food is painted first, then the grown body.
    assert_eq!(updates.len(), 4);
    assert_eq!(updates[0].glyph, 'x');
    assert_eq!(updates[1].glyph, '\u{25fc}');
}

#[test]
fn tick_reports_wall_death() {
    let mut g = Game {
        frame: Frame::new(3, 3),
        snake: Snake::new((0, 1), Direction::Right, 2),
        food: (2, 2),
        speed: Speed::new(2),
        count: 9,
        heading: Direction::Right,
    };
    let (outcome, updates) = g.tick(&arrow(b'A'));
    assert_eq!(outcome, Outcome::Dead);
    assert!(updates.is_empty());
}

#[test]
fn tick_reports_self_collision_death() {
    let mut snake = Snake::new((2, 2), Direction::Right, 2);
    snake.add_tail((1, 1));
    snake.add_tail((1, 2));
    snake.add_tail((1, 3));
    let mut g = Game {
        frame: Frame::new(5, 5),
        snake,
        food: (4, 4),
        speed: Speed::new(5),
        count: 9,
        heading: Direction::Right,
    };
    let (outcome, _) = g.tick(&arrow(b'A'));
    assert_eq!(outcome, Outcome::Dead);
}

#[test]
fn scenario_eating_the_last_cell_wins() {
    // 3x3 board, snake of length 8, only (0,2) free and holding the food.
    let mut snake = Snake::new((1, 2), Direction::Up, 2);
    assert_eq!(snake.body, vec![(1, 2), (2, 2)]);
    snake.add_tail((2, 1));
    snake.add_tail((2, 0));
    snake.add_tail((1, 0));
    snake.add_tail((0, 0));
    snake.add_tail((0, 1));
    snake.add_tail((1, 1));
    let mut g = Game {
        frame: Frame::new(3, 3),
        snake,
        food: (0, 2),
        speed: Speed::new(8),
        count: 9,
        heading: Direction::Up,
    };
    let (outcome, updates) = g.tick(&no_input());
    assert_eq!(outcome, Outcome::Won);
    assert_eq!(g.snake.len(), 9);
    assert!(updates.is_empty());
    // Food was never replaced after the win, and the picker would refuse:
    assert_eq!(g.food, (0, 2));
    assert_eq!(
        g.frame.random_point(&g.snake).unwrap_err(),
        GameError::NoFreeCell
    );
}
