use vstd::prelude::*;

use crate::grid::{Cell, Position, SnakeRole};

verus! {

/// The fixed palette the renderer draws from. `Reset` stands for the
/// terminal's default background.
#[derive(Copy, Clone, Debug, PartialEq, Eq, Structural)]
pub enum Color {
    Reset,
    LightMagenta,
    LightYellow,
    LightGreen,
}

/// One display update: position the cursor at `(x, y)`, apply the colors
/// that are present, and write `text`. The text is ASCII bytes.
#[derive(Clone, Debug)]
pub struct RenderOp {
    pub x: u16,
    pub y: u16,
    pub fg: Option<Color>,
    pub bg: Option<Color>,
    pub text: Vec<u8>,
}

/// The ASCII digits of `n`, most significant first.
pub open spec fn dec_digits(n: nat) -> Seq<u8>
    decreases n,
{
    if n < 10 {
        seq![(48 + n) as u8]
    } else {
        dec_digits(n / 10).push((48 + n % 10) as u8)
    }
}

/// The foreground color a cell is drawn with.
pub open spec fn cell_fg(c: Cell) -> Option<Color> {
    match c {
        Cell::Empty => None,
        Cell::Food(_) => Some(Color::LightMagenta),
        Cell::Snake(_, _) => Some(Color::LightYellow),
    }
}

/// The background color a cell is drawn with.
pub open spec fn cell_bg(c: Cell) -> Option<Color> {
    match c {
        Cell::Empty => Some(Color::Reset),
        Cell::Food(_) => None,
        Cell::Snake(_, _) => None,
    }
}

/// The glyph a cell is drawn as: a blank for empty cells, the decimal
/// value of a food item, `O` for a body segment, `#` for the head.
pub open spec fn cell_text(c: Cell) -> Seq<u8> {
    match c {
        Cell::Empty => seq![32u8],
        Cell::Food(v) => dec_digits(v as nat),
        Cell::Snake(_, SnakeRole::Body) => seq![79u8],
        Cell::Snake(_, SnakeRole::Head) => seq![35u8],
    }
}

/// The display update that redraws the cell at `p` holding `c`.
pub open spec fn op_is_cell(op: RenderOp, p: Position, c: Cell) -> bool {
    &&& op.x == p.x
    &&& op.y == p.y
    &&& op.fg == cell_fg(c)
    &&& op.bg == cell_bg(c)
    &&& op.text@ == cell_text(c)
}

/// The text of the score banner: ` Score: ` followed by the decimal
/// score and a trailing blank.
pub open spec fn score_text(score: u32) -> Seq<u8> {
    seq![32u8, 83u8, 99u8, 111u8, 114u8, 101u8, 58u8, 32u8] + dec_digits(score as nat) + seq![32u8]
}

/// The display update that redraws the score banner at (3, 1) in green on
/// the default background.
pub open spec fn op_is_score(op: RenderOp, score: u32) -> bool {
    &&& op.x == 3
    &&& op.y == 1
    &&& op.fg == Some(Color::LightGreen)
    &&& op.bg == Some(Color::Reset)
    &&& op.text@ == score_text(score)
}

/// Append the ASCII digits of `n` to `out`.
pub fn push_dec(n: u32, out: &mut Vec<u8>)
    ensures
        final(out)@ == old(out)@ + dec_digits(n as nat),
    decreases n,
{
    if n < 10 {
        out.push(48 + n as u8);
    } else {
        push_dec(n / 10, out);
        out.push(48 + (n % 10) as u8);
    }
    proof {
        assert(final(out)@ =~= old(out)@ + dec_digits(n as nat));
    }
}

/// Build the display update for the cell at `p` holding `c`.
pub fn render_cell(p: Position, c: Cell) -> (op: RenderOp)
    ensures
        op_is_cell(op, p, c),
{
    match c {
        Cell::Empty => {
            let mut text: Vec<u8> = Vec::new();
            text.push(32);
            RenderOp { x: p.x, y: p.y, fg: None, bg: Some(Color::Reset), text }
        },
        Cell::Food(v) => {
            let mut text: Vec<u8> = Vec::new();
            push_dec(v as u32, &mut text);
            RenderOp { x: p.x, y: p.y, fg: Some(Color::LightMagenta), bg: None, text }
        },
        Cell::Snake(_, SnakeRole::Body) => {
            let mut text: Vec<u8> = Vec::new();
            text.push(79);
            RenderOp { x: p.x, y: p.y, fg: Some(Color::LightYellow), bg: None, text }
        },
        Cell::Snake(_, SnakeRole::Head) => {
            let mut text: Vec<u8> = Vec::new();
            text.push(35);
            RenderOp { x: p.x, y: p.y, fg: Some(Color::LightYellow), bg: None, text }
        },
    }
}

/// Build the display update for the score banner.
pub fn render_score(score: u32) -> (op: RenderOp)
    ensures
        op_is_score(op, score),
{
    let mut text: Vec<u8> = Vec::new();
    text.push(32);
    text.push(83);
    text.push(99);
    text.push(111);
    text.push(114);
    text.push(101);
    text.push(58);
    text.push(32);
    push_dec(score, &mut text);
    text.push(32);
    proof {
        assert(text@ =~= score_text(score));
    }
    RenderOp { x: 3, y: 1, fg: Some(Color::LightGreen), bg: Some(Color::Reset), text }
}

} // verus!
