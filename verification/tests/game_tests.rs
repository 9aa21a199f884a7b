use snake::game::{next_delay, Game, GameStatus};
use snake::grid::{Cell, Direction, Position, SnakeRole};
use snake::screen::Screen;

fn pos(x: u16, y: u16) -> Position {
    Position { x, y }
}

fn food_cells(screen: &Screen) -> Vec<(Position, u16)> {
    let mut out = Vec::new();
    for y in 1..=screen.h {
        for x in 1..=screen.w {
            if let Cell::Food(v) = screen.get(pos(x, y)) {
                out.push((pos(x, y), v));
            }
        }
    }
    out
}

fn snake_cells(screen: &Screen) -> Vec<Position> {
    let mut out = Vec::new();
    for y in 1..=screen.h {
        for x in 1..=screen.w {
            if let Cell::Snake(_, _) = screen.get(pos(x, y)) {
                out.push(pos(x, y));
            }
        }
    }
    out
}

#[test]
fn set_then_get_returns_cell() {
    let mut s = Screen::new(10, 10);
    s.set(pos(3, 4), Cell::Food(7));
    assert_eq!(s.get(pos(3, 4)), Cell::Food(7));
    assert_eq!(s.get(pos(4, 3)), Cell::Empty);
    s.set(pos(3, 4), Cell::Snake(Direction::Left, SnakeRole::Body));
    assert_eq!(s.get(pos(3, 4)), Cell::Snake(Direction::Left, SnakeRole::Body));
}

#[test]
fn place_food_random_never_overwrites_or_touches_border() {
    let mut s = Screen::new(8, 8);
    for round in 1..=30 {
        let placed = s.place_food_random();
        assert!(placed);
        let foods = food_cells(&s);
        // nothing was overwritten: every earlier food is still there
        assert_eq!(foods.len(), round);
        for (p, v) in foods {
            assert!((1..=9).contains(&v));
            assert!(p.x >= 2 && p.x <= 7 && p.y >= 2 && p.y <= 7);
        }
    }
}

#[test]
fn place_food_random_reports_a_full_board() {
    let mut s = Screen::new(5, 5);
    // the interior is 3 by 3: nine placements fill it
    for _ in 0..9 {
        assert!(s.place_food_random());
    }
    assert_eq!(food_cells(&s).len(), 9);
    assert!(!s.place_food_random());
    assert_eq!(food_cells(&s).len(), 9);
}

#[test]
fn new_game_seeds_head_and_twenty_foods() {
    let g = Game::new(40, 20);
    assert_eq!(g.head, pos(20, 10));
    assert_eq!(g.tail, pos(20, 10));
    assert!(matches!(g.direction, Direction::Right));
    assert_eq!(g.growing, 5);
    assert_eq!(g.score, 0);
    assert_eq!(
        g.screen.get(pos(20, 10)),
        Cell::Snake(Direction::Right, SnakeRole::Head)
    );
    assert_eq!(snake_cells(&g.screen), vec![pos(20, 10)]);
    let foods = food_cells(&g.screen);
    assert_eq!(foods.len(), 20);
    for (p, v) in foods {
        assert!((1..=9).contains(&v));
        assert!(p.x >= 2 && p.x <= 39 && p.y >= 2 && p.y <= 19);
    }
}

#[test]
fn new_seeded_places_the_asked_number_of_foods() {
    let g = Game::new_seeded(40, 20, 3);
    assert_eq!(food_cells(&g.screen).len(), 3);
}

#[test]
fn tick_moves_head_and_retracts_tail() {
    let mut g = Game::new_seeded(40, 20, 0);
    for i in 1..=5u16 {
        let st = g.tick(None);
        assert_eq!(st, GameStatus::Continue(false));
        assert_eq!(g.head, pos(20 + i, 10));
        assert_eq!(g.tail, pos(20, 10));
        assert_eq!(g.growing, 5 - i);
    }
    // growth is paid off: from here the body length stays fixed
    let before = snake_cells(&g.screen).len();
    assert_eq!(before, 6);
    let st = g.tick(None);
    assert_eq!(st, GameStatus::Continue(false));
    assert_eq!(g.head, pos(26, 10));
    assert_eq!(g.tail, pos(21, 10));
    assert_eq!(g.score, 0);
    assert_eq!(snake_cells(&g.screen).len(), before);
    assert_eq!(g.screen.get(pos(20, 10)), Cell::Empty);
}

#[test]
fn tick_onto_food_grows_and_scores_by_its_value() {
    let mut g = Game::new_seeded(40, 20, 0);
    assert!(g.place_food_at(pos(21, 10), 7));
    let st = g.tick(None);
    assert_eq!(st, GameStatus::Continue(true));
    assert_eq!(g.score, 7);
    // growth owed went from 5 to 4 by retraction, then up by the food value
    assert_eq!(g.growing, 11);
    assert_eq!(g.head, pos(21, 10));
    // the eaten food was replaced by exactly one new one, elsewhere
    let foods = food_cells(&g.screen);
    assert_eq!(foods.len(), 1);
    assert_ne!(foods[0].0, pos(21, 10));
}

#[test]
fn place_food_at_rejects_bad_spots_and_values() {
    let mut g = Game::new_seeded(40, 20, 0);
    assert!(!g.place_food_at(pos(20, 10), 5)); // the head sits there
    assert!(!g.place_food_at(pos(1, 10), 5)); // wall
    assert!(!g.place_food_at(pos(21, 10), 0)); // value too small
    assert!(!g.place_food_at(pos(21, 10), 10)); // value too large
    assert!(g.place_food_at(pos(21, 10), 9));
    assert_eq!(g.screen.get(pos(21, 10)), Cell::Food(9));
}

#[test]
fn stepping_onto_the_body_ends_the_game() {
    let mut g = Game::new_seeded(40, 20, 0);
    assert_eq!(g.tick(Some(Direction::Up)), GameStatus::Continue(false));
    assert_eq!(g.tick(Some(Direction::Left)), GameStatus::Continue(false));
    assert_eq!(g.tick(Some(Direction::Down)), GameStatus::Continue(false));
    // heading right again runs into the cell the snake started on
    assert_eq!(g.tick(Some(Direction::Right)), GameStatus::GameOver);
}

#[test]
fn reversing_into_the_body_ends_the_game() {
    let mut g = Game::new_seeded(40, 20, 0);
    assert_eq!(g.tick(None), GameStatus::Continue(false));
    assert_eq!(g.tick(Some(Direction::Left)), GameStatus::GameOver);
}

#[test]
fn stepping_onto_the_wall_ends_the_game() {
    let mut g = Game::new_seeded(40, 20, 0);
    for i in 1..=8u16 {
        assert_eq!(g.tick(Some(Direction::Up)), GameStatus::Continue(false));
        assert_eq!(g.head, pos(20, 10 - i));
    }
    assert_eq!(g.tick(Some(Direction::Up)), GameStatus::GameOver);
    assert_eq!(g.head, pos(20, 1));
}

#[test]
fn the_delay_shrinks_once_per_food_tick() {
    let mut delay: u64 = 200;
    for _ in 0..5 {
        delay = next_delay(delay, true);
    }
    assert_eq!(delay, 195);
}

#[test]
fn the_delay_never_goes_below_zero_and_ignores_plain_ticks() {
    assert_eq!(next_delay(100, false), 100);
    assert_eq!(next_delay(1, true), 0);
    assert_eq!(next_delay(0, true), 0);
}
