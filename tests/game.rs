use snake_game::food::{choose_food, draw_samples, FOOD_SAMPLES};
use snake_game::game::SnakeGame;
use snake_game::geometry::{occupies, shift, Direction, Point};

fn p(x: usize, y: usize) -> Point {
    Point { x, y }
}

fn game(width: usize, height: usize, cells: &[(usize, usize)], direction: Direction, food: (usize, usize)) -> SnakeGame {
    let snake: Vec<Point> = cells.iter().map(|&(x, y)| p(x, y)).collect();
    SnakeGame::from_parts(width, height, snake, direction, p(food.0, food.1)).expect("a valid position")
}

fn distinct(cells: &[Point]) -> bool {
    (0..cells.len()).all(|i| (0..cells.len()).all(|j| i == j || cells[i] != cells[j]))
}

#[test]
fn plain_move_shifts_the_snake() {
    let mut g = game(5, 5, &[(2, 2)], Direction::Right, (4, 2));
    g.update();
    assert_eq!(g.snake(), &vec![p(3, 2)]);
    assert_eq!(g.score(), 0);
    assert!(!g.is_game_over());
    assert_eq!(g.food(), p(4, 2));
}

#[test]
fn eating_grows_and_scores() {
    let mut g = game(5, 5, &[(3, 2)], Direction::Right, (4, 2));
    g.update();
    assert_eq!(g.snake(), &vec![p(4, 2), p(3, 2)]);
    assert_eq!(g.score(), 1);
    assert!(!g.is_game_over());
    assert_ne!(g.food(), p(4, 2));
    assert_ne!(g.food(), p(3, 2));
    assert!(g.food().x < 5 && g.food().y < 5);
}

#[test]
fn wall_ends_the_game() {
    let mut g = game(5, 5, &[(4, 2)], Direction::Right, (0, 0));
    g.update();
    assert!(g.is_game_over());
    assert_eq!(g.snake(), &vec![p(4, 2)]);
    assert_eq!(g.score(), 0);
}

#[test]
fn reversal_is_rejected_then_tick_moves_down() {
    let mut g = game(5, 6, &[(2, 2), (2, 3), (2, 4)], Direction::Down, (0, 0));
    g.change_direction(Direction::Up);
    assert_eq!(g.direction(), Direction::Down);
    // the same body listed from (2, 4): moving down, the head reaches (2, 5)
    let mut h = game(5, 6, &[(2, 4), (2, 3), (2, 2)], Direction::Down, (0, 0));
    h.change_direction(Direction::Up);
    assert_eq!(h.direction(), Direction::Down);
    h.update();
    assert_eq!(h.snake(), &vec![p(2, 5), p(2, 4), p(2, 3)]);
    assert!(!h.is_game_over());
}

#[test]
fn reversal_scenario_on_small_board_ends_the_game() {
    // head (2, 2) moving down runs into its own body at (2, 3)
    let mut g = game(5, 5, &[(2, 2), (2, 3), (2, 4)], Direction::Down, (0, 0));
    g.change_direction(Direction::Up);
    assert_eq!(g.direction(), Direction::Down);
    g.update();
    assert!(g.is_game_over());
    assert_eq!(g.snake(), &vec![p(2, 2), p(2, 3), p(2, 4)]);
}

#[test]
fn head_at_bottom_edge_ends_the_game() {
    let mut g = game(5, 5, &[(2, 4), (2, 3), (2, 2)], Direction::Down, (0, 0));
    g.update();
    assert!(g.is_game_over());
    assert_eq!(g.snake(), &vec![p(2, 4), p(2, 3), p(2, 2)]);
}

#[test]
fn every_wall_ends_the_game() {
    for (cell, d) in [((0, 1), Direction::Left), ((1, 0), Direction::Up), ((2, 1), Direction::Right), ((1, 2), Direction::Down)] {
        let mut g = game(3, 3, &[cell], d, (1, 1));
        g.update();
        assert!(g.is_game_over());
        assert_eq!(g.snake(), &vec![p(cell.0, cell.1)]);
    }
}

#[test]
fn moving_into_the_tail_cell_collides() {
    // a square loop: the head's next cell is the tail, which still counts as occupied
    let mut g = game(5, 5, &[(1, 1), (2, 1), (2, 2), (1, 2)], Direction::Down, (4, 4));
    g.update();
    assert!(g.is_game_over());
    assert_eq!(g.snake(), &vec![p(1, 1), p(2, 1), p(2, 2), p(1, 2)]);
    assert_eq!(g.food(), p(4, 4));
}

#[test]
fn finished_game_does_not_change() {
    let mut g = game(5, 5, &[(4, 2)], Direction::Right, (0, 0));
    g.update();
    assert!(g.is_game_over());
    for _ in 0..3 {
        g.update();
        assert!(g.is_game_over());
        assert_eq!(g.snake(), &vec![p(4, 2)]);
        assert_eq!(g.food(), p(0, 0));
        assert_eq!(g.score(), 0);
    }
}

#[test]
fn change_direction_accepts_all_but_the_opposite() {
    let all = [Direction::Up, Direction::Down, Direction::Left, Direction::Right];
    for &cur in &all {
        for &req in &all {
            let mut g = game(5, 5, &[(2, 2)], cur, (0, 0));
            g.change_direction(req);
            if req == cur.opposite() {
                assert_eq!(g.direction(), cur);
            } else {
                assert_eq!(g.direction(), req);
            }
        }
    }
}

#[test]
fn latest_accepted_turn_wins() {
    let mut g = game(5, 5, &[(2, 2)], Direction::Right, (0, 0));
    g.change_direction(Direction::Up);
    g.change_direction(Direction::Down);
    assert_eq!(g.direction(), Direction::Up);
    g.change_direction(Direction::Left);
    assert_eq!(g.direction(), Direction::Left);
    g.update();
    assert_eq!(g.snake(), &vec![p(1, 2)]);
}

#[test]
fn opposites() {
    assert_eq!(Direction::Up.opposite(), Direction::Down);
    assert_eq!(Direction::Down.opposite(), Direction::Up);
    assert_eq!(Direction::Left.opposite(), Direction::Right);
    assert_eq!(Direction::Right.opposite(), Direction::Left);
}

#[test]
fn new_game_starts_live_in_the_middle() {
    let g = SnakeGame::new(20, 20);
    assert_eq!(g.snake(), &vec![p(10, 10)]);
    assert_eq!(g.direction(), Direction::Right);
    assert_eq!(g.score(), 0);
    assert!(!g.is_game_over());
    assert_eq!((g.width(), g.height()), (20, 20));
    assert!(g.food().x < 20 && g.food().y < 20);
    assert_ne!(g.food(), p(10, 10));
}

#[test]
fn new_game_on_two_cells_puts_food_on_the_other() {
    let g = SnakeGame::new(2, 1);
    assert_eq!(g.snake(), &vec![p(1, 0)]);
    assert_eq!(g.food(), p(0, 0));
    let h = SnakeGame::new(1, 2);
    assert_eq!(h.snake(), &vec![p(0, 1)]);
    assert_eq!(h.food(), p(0, 0));
}

#[test]
fn filling_the_board_ends_the_game() {
    let mut g = game(2, 1, &[(1, 0)], Direction::Left, (0, 0));
    g.update();
    assert_eq!(g.snake(), &vec![p(0, 0), p(1, 0)]);
    assert_eq!(g.score(), 1);
    assert!(g.is_game_over());
    assert_eq!(g.food(), p(0, 0));
}

#[test]
fn from_parts_rejects_invalid_positions() {
    let ok = |w: usize, h: usize, cells: &[(usize, usize)], food: (usize, usize)| {
        let snake: Vec<Point> = cells.iter().map(|&(x, y)| p(x, y)).collect();
        SnakeGame::from_parts(w, h, snake, Direction::Up, p(food.0, food.1)).is_some()
    };
    assert!(ok(5, 5, &[(2, 2), (2, 3)], (0, 0)));
    assert!(!ok(0, 5, &[(0, 0)], (0, 1)));
    assert!(!ok(5, 0, &[(0, 0)], (1, 0)));
    assert!(!ok(usize::MAX, 2, &[(0, 0)], (1, 0)));
    assert!(!ok(5, 5, &[], (0, 0)));
    assert!(!ok(5, 5, &[(5, 0)], (0, 0)));
    assert!(!ok(5, 5, &[(0, 5)], (0, 0)));
    assert!(!ok(5, 5, &[(1, 1), (1, 2), (1, 1)], (0, 0)));
    assert!(!ok(5, 5, &[(1, 1)], (5, 0)));
    assert!(!ok(5, 5, &[(1, 1), (1, 2)], (1, 2)));
}

#[test]
fn long_run_keeps_the_invariant() {
    let mut g = SnakeGame::new(6, 4);
    let turns = [Direction::Down, Direction::Left, Direction::Up, Direction::Right];
    for step in 0..200 {
        if g.is_game_over() {
            break;
        }
        if step % 3 == 0 {
            g.change_direction(turns[(step / 3) % 4]);
        }
        let before_len = g.snake().len();
        let before_score = g.score();
        let before_food = g.food();
        let next = shift(g.snake()[0], g.direction(), 6, 4);
        g.update();
        let snake = g.snake();
        assert!(!snake.is_empty());
        assert!(snake.iter().all(|c| c.x < 6 && c.y < 4));
        assert!(distinct(snake));
        if !g.is_game_over() {
            assert!(!snake.contains(&g.food()));
            let h = next.expect("a live move stays on the board");
            assert_eq!(snake[0], h);
            if h == before_food {
                assert_eq!(snake.len(), before_len + 1);
                assert_eq!(g.score(), before_score + 1);
            } else {
                assert_eq!(snake.len(), before_len);
                assert_eq!(g.score(), before_score);
            }
        }
    }
}

#[test]
fn shift_stays_on_the_board() {
    assert_eq!(shift(p(0, 0), Direction::Up, 3, 3), None);
    assert_eq!(shift(p(0, 0), Direction::Left, 3, 3), None);
    assert_eq!(shift(p(2, 2), Direction::Down, 3, 3), None);
    assert_eq!(shift(p(2, 2), Direction::Right, 3, 3), None);
    assert_eq!(shift(p(1, 1), Direction::Up, 3, 3), Some(p(1, 0)));
    assert_eq!(shift(p(1, 1), Direction::Down, 3, 3), Some(p(1, 2)));
    assert_eq!(shift(p(1, 1), Direction::Left, 3, 3), Some(p(0, 1)));
    assert_eq!(shift(p(1, 1), Direction::Right, 3, 3), Some(p(2, 1)));
}

#[test]
fn occupies_finds_cells() {
    let cells = vec![p(1, 1), p(2, 1)];
    assert!(occupies(&cells, p(2, 1)));
    assert!(!occupies(&cells, p(1, 2)));
    assert!(!occupies(&Vec::new(), p(0, 0)));
}

#[test]
fn choose_food_takes_first_free_sample() {
    let snake = vec![p(0, 0), p(1, 0)];
    let samples = vec![p(1, 0), p(7, 7), p(2, 2), p(0, 1)];
    assert_eq!(choose_food(&snake, 3, 3, &samples), Some(p(2, 2)));
}

#[test]
fn choose_food_falls_back_to_row_order() {
    let snake = vec![p(0, 0), p(1, 0), p(2, 0)];
    let samples = vec![p(1, 0), p(0, 0)];
    assert_eq!(choose_food(&snake, 3, 2, &samples), Some(p(0, 1)));
    assert_eq!(choose_food(&snake, 3, 2, &Vec::new()), Some(p(0, 1)));
}

#[test]
fn choose_food_on_a_covered_board_is_none() {
    let snake = vec![p(0, 0), p(1, 0), p(1, 1), p(0, 1)];
    assert_eq!(choose_food(&snake, 2, 2, &vec![p(0, 0)]), None);
}

#[test]
fn samples_lie_on_the_board() {
    for _ in 0..20 {
        let s = draw_samples(3, 2);
        assert_eq!(s.len(), FOOD_SAMPLES);
        assert!(s.iter().all(|c| c.x < 3 && c.y < 2));
    }
    let one = draw_samples(1, 1);
    assert!(one.iter().all(|&c| c == p(0, 0)));
}
