use snake::grid::{Cell, Direction, Position, SnakeRole};
use snake::highscore::{Highscore, Highscores};
use snake::render::{render_cell, render_score, Color};
use snake::screen::Screen;

fn pos(x: u16, y: u16) -> Position {
    Position { x, y }
}

#[test]
fn empty_cells_render_as_a_blank_on_the_reset_background() {
    let op = render_cell(pos(4, 5), Cell::Empty);
    assert_eq!((op.x, op.y), (4, 5));
    assert_eq!(op.fg, None);
    assert_eq!(op.bg, Some(Color::Reset));
    assert_eq!(op.text, b" ".to_vec());
}

#[test]
fn food_cells_render_their_decimal_value_in_magenta() {
    let op = render_cell(pos(2, 2), Cell::Food(7));
    assert_eq!(op.fg, Some(Color::LightMagenta));
    assert_eq!(op.bg, None);
    assert_eq!(op.text, b"7".to_vec());
    let wide = render_cell(pos(2, 2), Cell::Food(1234));
    assert_eq!(wide.text, b"1234".to_vec());
}

#[test]
fn snake_cells_render_their_glyphs_in_yellow() {
    let body = render_cell(pos(6, 3), Cell::Snake(Direction::Up, SnakeRole::Body));
    assert_eq!(body.fg, Some(Color::LightYellow));
    assert_eq!(body.text, b"O".to_vec());
    let head = render_cell(pos(6, 3), Cell::Snake(Direction::Up, SnakeRole::Head));
    assert_eq!(head.fg, Some(Color::LightYellow));
    assert_eq!(head.text, b"#".to_vec());
}

#[test]
fn the_score_banner_renders_at_the_top_left_in_green() {
    let op = render_score(195);
    assert_eq!((op.x, op.y), (3, 1));
    assert_eq!(op.fg, Some(Color::LightGreen));
    assert_eq!(op.bg, Some(Color::Reset));
    assert_eq!(op.text, b" Score: 195 ".to_vec());
    assert_eq!(render_score(0).text, b" Score: 0 ".to_vec());
}

#[test]
fn every_cell_write_queues_exactly_one_display_update() {
    let mut s = Screen::new(10, 10);
    let drained = s.take_render_ops();
    assert!(drained.is_empty());
    s.set(pos(3, 3), Cell::Food(4));
    s.set(pos(4, 3), Cell::Empty);
    s.display_score(12);
    let ops = s.take_render_ops();
    assert_eq!(ops.len(), 3);
    assert_eq!((ops[0].x, ops[0].y), (3, 3));
    assert_eq!(ops[0].text, b"4".to_vec());
    assert_eq!((ops[1].x, ops[1].y), (4, 3));
    assert_eq!(ops[1].text, b" ".to_vec());
    assert_eq!(ops[2].text, b" Score: 12 ".to_vec());
    assert!(s.take_render_ops().is_empty());
}

#[test]
fn highscores_compare_by_score_alone() {
    let a = Highscore::new("a".to_string(), 10);
    let b = Highscore::new("b".to_string(), 10);
    let c = Highscore::new("c".to_string(), 30);
    assert!(a == b);
    assert!(a != c);
    assert!(a < c);
    assert!(c > b);
    assert_eq!(
        a.partial_cmp(&b),
        Some(std::cmp::Ordering::Equal)
    );
}

#[test]
fn inserting_a_score_keeps_the_list_sorted_descending() {
    let mut hs = Highscores::default();
    hs.add(Highscore::new("a".to_string(), 10));
    hs.add(Highscore::new("b".to_string(), 30));
    hs.add(Highscore::new("c".to_string(), 20));
    let got: Vec<(String, u32)> = hs
        .scores
        .iter()
        .map(|e| (e.name.clone(), e.score))
        .collect();
    assert_eq!(
        got,
        vec![
            ("b".to_string(), 30),
            ("c".to_string(), 20),
            ("a".to_string(), 10)
        ]
    );
}

#[test]
fn tied_scores_keep_insertion_order() {
    let mut hs = Highscores::default();
    hs.add(Highscore::new("first".to_string(), 20));
    hs.add(Highscore::new("second".to_string(), 20));
    assert_eq!(hs.scores[0].name, "first");
    assert_eq!(hs.scores[1].name, "second");
}
