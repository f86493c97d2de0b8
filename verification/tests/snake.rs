use std::collections::VecDeque;
use teapot::position::Position;
use teapot::snake::{Food, Game, Snake, FOOD_LIFETIME, STEP_TICKS};

fn parts_of(game: &Game) -> Vec<[i32; 3]> {
    game.snake.parts.iter().map(|part| part.0).collect()
}

fn snake_of(cells: &[[i32; 3]], direction: [i32; 3]) -> Snake {
    let parts: VecDeque<Position> = cells.iter().map(|cell| Position(*cell)).collect();
    Snake { parts, direction: Position(direction) }
}

fn open_grid(snake: Snake, food: Vec<Food>) -> Game {
    Game { size: [100, 100, 100], food, snake, progress: 0 }
}

#[test]
fn new_snake_lies_along_the_first_axis() {
    let snake = Snake::new();
    let cells: Vec<[i32; 3]> = snake.parts.iter().map(|part| part.0).collect();
    assert_eq!(cells, vec![[0, 0, 0], [1, 0, 0], [2, 0, 0]]);
    assert_eq!(snake.direction, Position([1, 0, 0]));
}

#[test]
fn forward_moves_one_cell_on_an_open_grid() {
    let mut game = open_grid(Snake::new(), vec![]);
    game.forward();
    assert_eq!(parts_of(&game), vec![[1, 0, 0], [2, 0, 0], [3, 0, 0]]);
    assert!(game.food.is_empty());
    assert_eq!(game.snake.direction, Position([1, 0, 0]));
}

#[test]
fn forward_wraps_around_the_far_edge() {
    let snake = snake_of(&[[97, 4, 4], [98, 4, 4], [99, 4, 4]], [1, 0, 0]);
    let mut game = open_grid(snake, vec![]);
    game.forward();
    assert_eq!(parts_of(&game), vec![[98, 4, 4], [99, 4, 4], [0, 4, 4]]);
}

#[test]
fn forward_wraps_around_the_near_edge() {
    let snake = snake_of(&[[0, 2, 7], [0, 1, 7], [0, 0, 7]], [0, -1, 0]);
    let mut game = Game { size: [5, 6, 8], food: vec![], snake, progress: 0 };
    game.forward();
    assert_eq!(parts_of(&game), vec![[0, 1, 7], [0, 0, 7], [0, 5, 7]]);
}

#[test]
fn forward_into_own_body_keeps_the_two_newest_parts() {
    let snake = snake_of(
        &[[5, 5, 5], [0, 0, 0], [1, 0, 0], [1, 1, 0], [0, 1, 0]],
        [0, -1, 0],
    );
    let mut game = open_grid(snake, vec![]);
    game.forward();
    assert_eq!(parts_of(&game), vec![[1, 1, 0], [0, 1, 0], [0, 0, 0]]);
    assert_eq!(game.snake.parts.len() - 1, 2);
}

#[test]
fn forward_onto_the_oldest_part_is_no_crash() {
    let snake = snake_of(&[[0, 0, 0], [1, 0, 0], [1, 1, 0], [0, 1, 0]], [0, -1, 0]);
    let mut game = open_grid(snake, vec![]);
    game.forward();
    assert_eq!(parts_of(&game), vec![[1, 0, 0], [1, 1, 0], [0, 1, 0], [0, 0, 0]]);
}

#[test]
fn crash_leaves_the_food_alone() {
    let snake = snake_of(
        &[[5, 5, 5], [0, 0, 0], [1, 0, 0], [1, 1, 0], [0, 1, 0]],
        [0, -1, 0],
    );
    let food = vec![Food { time: 0, position: [0, 0, 0] }];
    let mut game = open_grid(snake, food.clone());
    game.forward();
    assert_eq!(parts_of(&game), vec![[1, 1, 0], [0, 1, 0], [0, 0, 0]]);
    assert_eq!(game.food, food);
}

#[test]
fn food_on_the_entered_cell_is_eaten() {
    let food = vec![Food { time: 0, position: [9, 9, 9] }, Food { time: 40, position: [3, 0, 0] }];
    let mut game = open_grid(Snake::new(), food);
    game.forward();
    assert_eq!(parts_of(&game), vec![[0, 0, 0], [1, 0, 0], [2, 0, 0], [3, 0, 0]]);
    assert_eq!(game.food, vec![Food { time: 0, position: [9, 9, 9] }]);
}

#[test]
fn only_the_first_food_on_the_entered_cell_is_eaten() {
    let food = vec![
        Food { time: 0, position: [3, 0, 0] },
        Food { time: 40, position: [8, 8, 8] },
        Food { time: 80, position: [3, 0, 0] },
    ];
    let mut game = open_grid(Snake::new(), food);
    game.forward();
    assert_eq!(
        game.food,
        vec![Food { time: 40, position: [8, 8, 8] }, Food { time: 80, position: [3, 0, 0] }]
    );
}

#[test]
fn eating_on_the_cell_of_the_oldest_part_cuts_the_snake_down() {
    let snake = snake_of(&[[0, 0, 0], [1, 0, 0], [1, 1, 0], [0, 1, 0]], [0, -1, 0]);
    let food = vec![Food { time: 0, position: [0, 0, 0] }];
    let mut game = open_grid(snake, food);
    game.forward();
    assert_eq!(parts_of(&game), vec![[1, 1, 0], [0, 1, 0], [0, 0, 0]]);
    assert!(game.food.is_empty());
}

#[test]
fn set_direction_rejects_the_reverse_of_the_motion() {
    let mut snake = Snake::new();
    snake.set_direction(Position([-1, 0, 0]));
    assert_eq!(snake.direction, Position([1, 0, 0]));
}

#[test]
fn set_direction_takes_any_other_direction() {
    let mut snake = Snake::new();
    snake.set_direction(Position([0, 0, -1]));
    assert_eq!(snake.direction, Position([0, 0, -1]));
    snake.set_direction(Position([0, 1, 0]));
    assert_eq!(snake.direction, Position([0, 1, 0]));
    snake.set_direction(Position([1, 0, 0]));
    assert_eq!(snake.direction, Position([1, 0, 0]));
}

#[test]
fn set_direction_goes_by_the_motion_not_the_heading() {
    // Heading up, but still moving along the first axis.
    let mut snake = snake_of(&[[0, 0, 0], [1, 0, 0], [2, 0, 0]], [0, 1, 0]);
    snake.set_direction(Position([0, -1, 0]));
    assert_eq!(snake.direction, Position([0, -1, 0]));
    snake.set_direction(Position([-1, 0, 0]));
    assert_eq!(snake.direction, Position([0, -1, 0]));
}

#[test]
fn set_direction_copes_with_extreme_coordinates() {
    let mut snake = snake_of(&[[i32::MAX, 0, 0], [i32::MIN, 0, 0]], [1, 0, 0]);
    snake.set_direction(Position([1, 0, 0]));
    assert_eq!(snake.direction, Position([1, 0, 0]));
    snake.set_direction(Position([0, 0, 1]));
    assert_eq!(snake.direction, Position([0, 0, 1]));
}

#[test]
fn steer_rejects_the_reverse_of_the_heading_too() {
    let mut snake = snake_of(&[[0, 0, 0], [1, 0, 0], [2, 0, 0]], [0, 1, 0]);
    snake.steer(Position([0, -1, 0]));
    assert_eq!(snake.direction, Position([0, 1, 0]));
    snake.steer(Position([-1, 0, 0]));
    assert_eq!(snake.direction, Position([0, 1, 0]));
    snake.steer(Position([0, 0, 1]));
    assert_eq!(snake.direction, Position([0, 0, 1]));
}

#[test]
fn vectors_are_the_six_axis_directions() {
    let axes = Snake::new().vectors();
    assert_eq!(
        axes,
        [
            Position([1, 0, 0]),
            Position([-1, 0, 0]),
            Position([0, 1, 0]),
            Position([0, -1, 0]),
            Position([0, 0, 1]),
            Position([0, 0, -1]),
        ]
    );
}

#[test]
fn find_food_gives_the_first_item_on_the_cell() {
    let food = vec![
        Food { time: 0, position: [1, 2, 3] },
        Food { time: 40, position: [4, 5, 6] },
        Food { time: 80, position: [4, 5, 6] },
    ];
    let game = open_grid(Snake::new(), food);
    assert_eq!(game.find_food(&[4, 5, 6]), Some(1));
    assert_eq!(game.find_food(&[1, 2, 3]), Some(0));
    assert_eq!(game.find_food(&[6, 5, 4]), None);
}

#[test]
fn cells_under_the_snake_or_food_or_off_the_grid_are_occupied() {
    let game = open_grid(Snake::new(), vec![Food { time: 0, position: [7, 7, 7] }]);
    assert!(!game.is_unoccupied(&[0, 0, 0]));
    assert!(!game.is_unoccupied(&[2, 0, 0]));
    assert!(!game.is_unoccupied(&[7, 7, 7]));
    assert!(!game.is_unoccupied(&[100, 0, 0]));
    assert!(!game.is_unoccupied(&[0, -1, 0]));
    assert!(game.is_unoccupied(&[3, 0, 0]));
    assert!(game.is_unoccupied(&[99, 99, 99]));
}

#[test]
fn unoccupied_finds_a_free_cell_on_the_grid() {
    let game = Game {
        size: [4, 3, 2],
        food: vec![Food { time: 0, position: [3, 2, 1] }],
        snake: Snake::new(),
        progress: 0,
    };
    for _ in 0..200 {
        let cell = game.unoccupied().unwrap();
        assert!((0..4).contains(&cell[0]) && (0..3).contains(&cell[1]) && (0..2).contains(&cell[2]));
        assert!(game.is_unoccupied(&cell));
    }
}

#[test]
fn unoccupied_draws_more_than_one_cell() {
    let game = open_grid(Snake::new(), vec![]);
    let first = game.unoccupied().unwrap();
    let varied = (0..64).any(|_| game.unoccupied().unwrap() != first);
    assert!(varied);
}

#[test]
fn unoccupied_finds_the_last_free_cell() {
    // A 3 x 1 x 2 grid with five of its six cells taken.
    let game = Game {
        size: [3, 1, 2],
        food: vec![Food { time: 0, position: [0, 0, 1] }, Food { time: 0, position: [2, 0, 1] }],
        snake: Snake::new(),
        progress: 0,
    };
    assert_eq!(game.unoccupied(), Some([1, 0, 1]));
    assert_eq!(game.first_unoccupied(), Some([1, 0, 1]));
}

#[test]
fn unoccupied_gives_none_on_a_full_grid() {
    let game = Game { size: [3, 1, 1], food: vec![], snake: Snake::new(), progress: 0 };
    assert_eq!(game.unoccupied(), None);
    assert_eq!(game.first_unoccupied(), None);
}

#[test]
fn first_unoccupied_sweeps_the_last_axis_first() {
    let game = Game { size: [3, 2, 2], food: vec![], snake: Snake::new(), progress: 0 };
    assert_eq!(game.first_unoccupied(), Some([0, 0, 1]));
}

#[test]
fn expire_drops_food_older_than_its_lifetime() {
    let food = vec![
        Food { time: 0, position: [5, 0, 0] },
        Food { time: 1, position: [6, 0, 0] },
        Food { time: 2, position: [7, 0, 0] },
    ];
    let mut game = open_grid(Snake::new(), food);
    game.expire(FOOD_LIFETIME + 1);
    assert_eq!(
        game.food,
        vec![Food { time: 1, position: [6, 0, 0] }, Food { time: 2, position: [7, 0, 0] }]
    );
    game.expire(FOOD_LIFETIME + 1);
    assert_eq!(game.food.len(), 2);
    game.expire(i32::MAX);
    assert!(game.food.is_empty());
}

#[test]
fn expire_keeps_food_of_exactly_its_lifetime() {
    let mut game = open_grid(Snake::new(), vec![Food { time: 40, position: [5, 0, 0] }]);
    game.expire(40 + FOOD_LIFETIME);
    assert_eq!(game.food, vec![Food { time: 40, position: [5, 0, 0] }]);
}

#[test]
fn expire_copes_with_extreme_ticks() {
    let mut game = open_grid(Snake::new(), vec![Food { time: i32::MIN, position: [5, 0, 0] }]);
    game.expire(i32::MAX);
    assert!(game.food.is_empty());
    let mut game = open_grid(Snake::new(), vec![Food { time: i32::MAX, position: [5, 0, 0] }]);
    game.expire(i32::MIN);
    assert_eq!(game.food.len(), 1);
}

#[test]
fn run_moves_the_snake_and_spawns_one_food() {
    let mut game = open_grid(Snake::new(), vec![]);
    assert!(game.run(0));
    assert_eq!(parts_of(&game), vec![[1, 0, 0], [2, 0, 0], [3, 0, 0]]);
    assert_eq!(game.food.len(), 1);
    assert_eq!(game.food[0].time, 0);
    let cell = game.food[0].position;
    assert!(cell.iter().all(|coordinate| (0..100).contains(coordinate)));
    assert!(!parts_of(&game).contains(&cell));
}

#[test]
fn run_never_spawns_food_on_the_snake_or_on_food() {
    let mut game = Game { size: [3, 2, 2], food: vec![], snake: Snake::new(), progress: 0 };
    game.snake.set_direction(Position([0, 1, 0]));
    let mut tick = 0;
    while game.run(tick) {
        let newest = game.food.last().unwrap().position;
        assert!(!parts_of(&game).contains(&newest));
        let same = game.food.iter().filter(|item| item.position == newest).count();
        assert_eq!(same, 1);
        game.snake.set_direction(Position([0, 1, 0]));
        tick += STEP_TICKS;
        assert!(tick < 40 * 40);
    }
    // The grid is full: every cell holds a part of the snake or a food item.
    assert_eq!(game.unoccupied(), None);
}

#[test]
fn food_spawned_at_a_tick_is_gone_after_a_step_past_its_lifetime() {
    let spawned_at = 120;
    let mut game = open_grid(Snake::new(), vec![Food { time: spawned_at, position: [50, 50, 50] }]);
    game.run(spawned_at + FOOD_LIFETIME);
    assert!(game.food.iter().any(|item| item.time == spawned_at));
    game.run(spawned_at + FOOD_LIFETIME + 1);
    assert!(game.food.iter().all(|item| item.time != spawned_at));
}

#[test]
fn tick_steps_the_game_every_fortieth_tick() {
    let mut game = open_grid(Snake::new(), vec![]);
    assert_eq!(game.tick(0), Some(true));
    assert_eq!(game.progress, 0);
    assert_eq!(parts_of(&game), vec![[1, 0, 0], [2, 0, 0], [3, 0, 0]]);
    for iteration in 1..40 {
        assert_eq!(game.tick(iteration), None);
        assert_eq!(game.progress, iteration);
        assert_eq!(parts_of(&game), vec![[1, 0, 0], [2, 0, 0], [3, 0, 0]]);
        assert_eq!(game.food.len(), 1);
    }
    assert_eq!(game.tick(40), Some(true));
    assert_eq!(game.progress, 0);
    assert_eq!(game.food.len() + parts_of(&game).len(), 5);
}

#[test]
fn tick_progress_stays_in_its_window_for_negative_ticks() {
    let mut game = open_grid(Snake::new(), vec![]);
    assert_eq!(game.tick(-1), None);
    assert_eq!(game.progress, 39);
    assert_eq!(game.tick(-40), Some(true));
    assert_eq!(game.progress, 0);
}

#[test]
fn a_long_game_keeps_its_shape() {
    let mut game = Game { size: [5, 4, 3], food: vec![], snake: Snake::new(), progress: 0 };
    let axes = game.snake.vectors();
    let mut seed: u32 = 12345;
    for step in 0..3000 {
        seed = seed.wrapping_mul(1664525).wrapping_add(1013904223);
        game.snake.steer(axes[(seed >> 16) as usize % 6]);
        let heading = game.snake.direction;
        let parts_before = parts_of(&game);
        game.tick(step * STEP_TICKS);

        let parts = parts_of(&game);
        assert!(parts.len() >= 2);
        assert!(parts.len() <= parts_before.len() + 1);
        for part in &parts {
            assert!((0..5).contains(&part[0]) && (0..4).contains(&part[1]) && (0..3).contains(&part[2]));
        }
        for (index, item) in game.food.iter().enumerate() {
            let cell = item.position;
            assert!((0..5).contains(&cell[0]) && (0..4).contains(&cell[1]) && (0..3).contains(&cell[2]));
            assert!(!parts.contains(&cell));
            assert!(game.food[..index].iter().all(|other| other.position != cell));
            assert!(step * STEP_TICKS - item.time <= FOOD_LIFETIME);
        }
        // The snake has not turned back on itself.
        let newest = parts[parts.len() - 1];
        let before = parts[parts.len() - 2];
        assert_eq!(before, *parts_before.last().unwrap());
        let reversed = (0..3).all(|axis| heading.0[axis] == before[axis] - newest[axis]);
        assert!(!reversed);
    }
}

#[test]
fn on_a_grid_two_cells_wide_a_step_forward_is_a_step_back() {
    let snake = snake_of(&[[0, 0, 0], [1, 0, 0]], [1, 0, 0]);
    let mut game = Game { size: [2, 5, 5], food: vec![], snake, progress: 0 };
    game.forward();
    assert_eq!(parts_of(&game), vec![[1, 0, 0], [0, 0, 0]]);
    // Moving by -1 while heading +1.
    assert_eq!(game.snake.direction, Position([1, 0, 0]));
}
