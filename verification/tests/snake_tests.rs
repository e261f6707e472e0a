use tiny_terminal_snake::snake::{Direction, Snake};
use tiny_terminal_snake::GameError;

#[test]
fn new_lays_out_backward_from_head() {
    let s = Snake::new((2, 2), Direction::Right, 2);
    assert_eq!(s.body, vec![(2, 2), (2, 1)]);

    let s = Snake::new((1, 1), Direction::Left, 2);
    assert_eq!(s.body, vec![(1, 1), (1, 2)]);

    let s = Snake::new((2, 2), Direction::Up, 3);
    assert_eq!(s.body, vec![(2, 2), (3, 2), (4, 2)]);

    let s = Snake::new((5, 5), Direction::Down, 4);
    assert_eq!(s.body, vec![(5, 5), (4, 5), (3, 5), (2, 5)]);
}

#[test]
fn new_len_matches_and_cells_distinct() {
    for (head, dir, length) in [
        ((3, 7), Direction::Up, 5usize),
        ((9, 0), Direction::Down, 10),
        ((0, 2), Direction::Left, 6),
        ((4, 4), Direction::Right, 5),
    ] {
        let s = Snake::new(head, dir, length);
        assert!(s.body.iter().all(|c| c.0 >= 0 && c.1 >= 0));
        assert_eq!(s.len(), length);
        for i in 0..s.body.len() {
            for j in 0..s.body.len() {
                if i != j {
                    assert_ne!(s.body[i], s.body[j]);
                }
            }
        }
    }
}

#[test]
fn new_fails_softly_on_negative_coordinates() {
    // Backward from (1, 1) against Down runs upward off the grid.
    let s = Snake::new((1, 1), Direction::Down, 3);
    assert_eq!(s.len(), 0);

    let s = Snake::new((0, 1), Direction::Right, 3);
    assert_eq!(s.len(), 0);
}

#[test]
fn straight_path_never_collides_and_keeps_length() {
    let mut s = Snake::new((10, 10), Direction::Right, 4);
    for _ in 0..20 {
        let r = s.move_one_step(&Direction::Right);
        assert!(r.is_ok());
        assert_eq!(s.len(), 4);
    }
    assert_eq!(s.head(), (10, 30));
}

#[test]
fn move_returns_the_popped_tail() {
    let mut s = Snake::new((2, 2), Direction::Right, 2);
    let r = s.move_one_step(&Direction::Right);
    assert_eq!(r.unwrap(), (2, 1));
    assert_eq!(s.body, vec![(2, 3), (2, 2)]);
}

#[test]
fn add_tail_grows_by_exactly_one_and_keeps_prior_cells() {
    let mut s = Snake::new((4, 4), Direction::Right, 3);
    let before = s.body.clone();
    s.add_tail((9, 9));
    assert_eq!(s.len(), before.len() + 1);
    assert_eq!(&s.body[..before.len()], &before[..]);
    assert_eq!(*s.body.last().unwrap(), (9, 9));
}

#[test]
fn move_into_body_cell_is_a_collision() {
    // A hook: head (2,2), body curling over the row above.
    let mut s = Snake::new((2, 2), Direction::Right, 2);
    s.add_tail((1, 1));
    s.add_tail((1, 2));
    s.add_tail((1, 3));
    assert_eq!(s.body, vec![(2, 2), (2, 1), (1, 1), (1, 2), (1, 3)]);
    // Up from (2,2) lands on (1,2), still occupied after the tail leaves.
    let r = s.move_one_step(&Direction::Up);
    assert_eq!(r.unwrap_err(), GameError::Collision);
    // The tail was already vacated when the collision was found.
    assert_eq!(s.body, vec![(2, 2), (2, 1), (1, 1), (1, 2)]);
}

#[test]
fn move_into_vacating_tail_cell_is_legal() {
    let mut s = Snake::new((2, 2), Direction::Right, 2);
    // Left from (2,2) targets (2,1), the very cell the tail leaves.
    let r = s.move_one_step(&Direction::Left);
    assert_eq!(r.unwrap(), (2, 1));
    assert_eq!(s.body, vec![(2, 1), (2, 2)]);
}

#[test]
fn reversal_into_neck_is_fatal_at_length_three() {
    let mut s = Snake::new((2, 2), Direction::Right, 3);
    assert_eq!(s.body, vec![(2, 2), (2, 1), (2, 0)]);
    let r = s.move_one_step(&Direction::Left);
    assert_eq!(r.unwrap_err(), GameError::Collision);
}

#[test]
fn scenario_center_head_facing_right() {
    // On a 5x5 board: head (2,2) facing Right with length 2.
    let s = Snake::new((2, 2), Direction::Right, 2);
    assert_eq!(s.body, vec![(2, 2), (2, 1)]);

    // Moving Left is not fatal: the tail vacates (2,1) this same step.
    let mut rev = Snake::new((2, 2), Direction::Right, 2);
    assert!(rev.move_one_step(&Direction::Left).is_ok());
    assert_eq!(rev.head(), (2, 1));

    // Moving Right advances the head to (2,3).
    let mut fwd = Snake::new((2, 2), Direction::Right, 2);
    assert!(fwd.move_one_step(&Direction::Right).is_ok());
    assert_eq!(fwd.head(), (2, 3));
}

#[test]
fn included_reports_membership() {
    let s = Snake::new((2, 2), Direction::Right, 2);
    assert!(s.included(&(2, 2)));
    assert!(s.included(&(2, 1)));
    assert!(!s.included(&(0, 0)));
    assert!(!s.included(&(2, 3)));
}
