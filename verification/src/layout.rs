//! Where things are on screen: the rectangle of every tube and of every
//! portion in it, which tube a click falls on, and the colors to paint.
//!
//! Everything here is plain integer geometry; drawing is left to the host.

use crate::board::{is_color, TUBE_COUNT};
use crate::model::Command;
use crate::tube::MAX_PORTION;
use vstd::prelude::*;

verus! {

pub const SCREEN_WIDTH: i32 = 400;

pub const SCREEN_HEIGHT: i32 = 460;

/// Tubes are laid out in rows of this many.
pub const TUBE_PER_ROW: u32 = 5;

pub const PORTION_WIDTH: u32 = 40;

pub const PORTION_HEIGHT: u32 = 36;

/// An axis-aligned rectangle in screen coordinates.
#[derive(Debug, Clone, Copy, PartialEq, Eq, Structural)]
pub struct Rect {
    pub x: i32,
    pub y: i32,
    pub width: u32,
    pub height: u32,
}

/// A color as red, green and blue.
#[derive(Debug, Clone, Copy, PartialEq, Eq, Structural)]
pub struct Rgb {
    pub r: u8,
    pub g: u8,
    pub b: u8,
}

impl Rect {
    /// The points of the rectangle: its left and top edges belong to it,
    /// its right and bottom edges do not.
    pub open spec fn contains(self, x: int, y: int) -> bool {
        &&& self.x <= x < self.x + self.width
        &&& self.y <= y < self.y + self.height
    }

    /// Tells whether the point lies in the rectangle.
    pub fn contains_point(&self, x: i32, y: i32) -> (inside: bool)
        ensures
            inside == self.contains(x as int, y as int),
    {
        let right: i64 = self.x as i64 + self.width as i64;
        let bottom: i64 = self.y as i64 + self.height as i64;
        x >= self.x && (x as i64) < right && y >= self.y && (y as i64) < bottom
    }
}

/// The outline of tube `index`: five tubes to a row, 70 pixels apart,
/// rows 210 pixels apart, each tube one portion wide and four high plus
/// its border.
pub open spec fn tube_rect(index: int) -> Rect {
    Rect {
        x: (40 + 70 * (index % TUBE_PER_ROW as int)) as i32,
        y: (40 + 210 * (index / TUBE_PER_ROW as int)) as i32,
        width: (PORTION_WIDTH + 2) as u32,
        height: (PORTION_HEIGHT * MAX_PORTION + 15) as u32,
    }
}

/// The rectangle of the portion in `slot` of tube `index`, slot 0 being
/// the bottom of the tube.
pub open spec fn slot_rect(index: int, slot: int) -> Rect {
    Rect {
        x: (tube_rect(index).x + 1) as i32,
        y: (tube_rect(index).y + 14 + (MAX_PORTION - slot - 1) * PORTION_HEIGHT) as i32,
        width: PORTION_WIDTH,
        height: PORTION_HEIGHT,
    }
}

/// The color that portions of `color` are painted in.
pub open spec fn palette(color: i32) -> Rgb {
    if color == 1 {
        Rgb { r: 192, g: 0, b: 0 }
    } else if color == 2 {
        Rgb { r: 0, g: 192, b: 0 }
    } else if color == 3 {
        Rgb { r: 0, g: 0, b: 192 }
    } else if color == 4 {
        Rgb { r: 192, g: 192, b: 0 }
    } else if color == 5 {
        Rgb { r: 0, g: 192, b: 192 }
    } else if color == 6 {
        Rgb { r: 192, g: 0, b: 192 }
    } else if color == 7 {
        Rgb { r: 192, g: 192, b: 192 }
    } else {
        Rgb { r: 255, g: 96, b: 0 }
    }
}

/// The color of the win banner on a given frame: it changes every three
/// frames and cycles through six colors.
pub open spec fn banner_palette(frame: int) -> Rgb {
    let phase = (frame / 3) % 6;
    if phase == 0 {
        Rgb { r: 255, g: 0, b: 0 }
    } else if phase == 1 {
        Rgb { r: 0, g: 255, b: 0 }
    } else if phase == 2 {
        Rgb { r: 0, g: 0, b: 255 }
    } else if phase == 3 {
        Rgb { r: 255, g: 255, b: 0 }
    } else if phase == 4 {
        Rgb { r: 0, g: 255, b: 255 }
    } else {
        Rgb { r: 255, g: 0, b: 255 }
    }
}

/// The outline of tube `index`.
pub fn get_rect(index: usize) -> (rect: Rect)
    requires
        index < TUBE_COUNT,
    ensures
        rect == tube_rect(index as int),
{
    let column: u32 = index as u32 % TUBE_PER_ROW;
    let row: u32 = index as u32 / TUBE_PER_ROW;
    let width = PORTION_WIDTH + 2;
    let height = PORTION_HEIGHT * MAX_PORTION as u32 + 15;
    let x = 40 + 70 * column;
    let y = 40 + 210 * row;
    Rect { x: x as i32, y: y as i32, width, height }
}

/// The frame drawn around the selected tube, one pixel outside its
/// outline.
pub fn selection_rect(index: usize) -> (rect: Rect)
    requires
        index < TUBE_COUNT,
    ensures
        rect.x == tube_rect(index as int).x - 1,
        rect.y == tube_rect(index as int).y - 1,
        rect.width == tube_rect(index as int).width + 2,
        rect.height == tube_rect(index as int).height + 2,
{
    let rect = get_rect(index);
    Rect { x: rect.x - 1, y: rect.y - 1, width: rect.width + 2, height: rect.height + 2 }
}

/// The rectangle of the portion in `slot` of tube `index`.
pub fn portion_rect(index: usize, slot: usize) -> (rect: Rect)
    requires
        index < TUBE_COUNT,
        slot < MAX_PORTION,
    ensures
        rect == slot_rect(index as int, slot as int),
{
    let rect = get_rect(index);
    let x = rect.x + 1;
    let y: u32 = rect.y as u32 + 14 + (MAX_PORTION as u32 - slot as u32 - 1) * PORTION_HEIGHT;
    Rect { x, y: y as i32, width: PORTION_WIDTH, height: PORTION_HEIGHT }
}

/// The rectangle that the portions in motion covered before the pour, in
/// the source tube `index`: `count` slots, starting above the `remaining`
/// portions that stay behind.
pub fn pouring_rect(index: usize, remaining: usize, count: usize) -> (rect: Rect)
    requires
        index < TUBE_COUNT,
        1 <= remaining + count <= MAX_PORTION,
    ensures
        rect.x == slot_rect(index as int, remaining + count - 1).x,
        rect.y == slot_rect(index as int, remaining + count - 1).y,
        rect.width == PORTION_WIDTH,
        rect.height == PORTION_HEIGHT * count,
{
    let rect = get_rect(index);
    let top_slot = remaining + count - 1;
    let x = rect.x + 1;
    let y: i32 = rect.y + 14 + (MAX_PORTION as i32 - top_slot as i32 - 1) * PORTION_HEIGHT as i32;
    Rect { x, y, width: PORTION_WIDTH, height: PORTION_HEIGHT * count as u32 }
}

/// The command that a click at `(x, y)` stands for: the selection of the
/// tube whose outline holds the point, or nothing where no tube is.
pub fn command_at(x: i32, y: i32) -> (command: Command)
    ensures
        command.valid(),
        match command {
            Command::Select(index) => tube_rect(index as int).contains(x as int, y as int),
            Command::Idle => forall|i: int|
                0 <= i < TUBE_COUNT ==> !(#[trigger] tube_rect(i)).contains(x as int, y as int),
        },
{
    let mut index: usize = 0;
    while index < TUBE_COUNT
        invariant
            index <= TUBE_COUNT,
            forall|i: int|
                0 <= i < index ==> !(#[trigger] tube_rect(i)).contains(x as int, y as int),
        decreases TUBE_COUNT - index,
    {
        let rect = get_rect(index);
        if rect.contains_point(x, y) {
            return Command::Select(index);
        }
        index += 1;
    }
    Command::Idle
}

/// The color that portions of `color` are painted in.
pub fn get_color(color: i32) -> (rgb: Rgb)
    requires
        is_color(color),
    ensures
        rgb == palette(color),
{
    match color {
        1 => Rgb { r: 192, g: 0, b: 0 },
        2 => Rgb { r: 0, g: 192, b: 0 },
        3 => Rgb { r: 0, g: 0, b: 192 },
        4 => Rgb { r: 192, g: 192, b: 0 },
        5 => Rgb { r: 0, g: 192, b: 192 },
        6 => Rgb { r: 192, g: 0, b: 192 },
        7 => Rgb { r: 192, g: 192, b: 192 },
        _ => Rgb { r: 255, g: 96, b: 0 },
    }
}

/// The color of the win banner on a given frame.
pub fn banner_color(frame: i32) -> (rgb: Rgb)
    requires
        frame >= 0,
    ensures
        rgb == banner_palette(frame as int),
{
    match (frame / 3) % 6 {
        0 => Rgb { r: 255, g: 0, b: 0 },
        1 => Rgb { r: 0, g: 255, b: 0 },
        2 => Rgb { r: 0, g: 0, b: 255 },
        3 => Rgb { r: 255, g: 255, b: 0 },
        4 => Rgb { r: 0, g: 255, b: 255 },
        _ => Rgb { r: 255, g: 0, b: 255 },
    }
}

/// No two tubes share a point, so a click selects at most one tube.
pub proof fn lemma_tube_rects_disjoint(i: int, j: int, x: int, y: int)
    requires
        0 <= i < TUBE_COUNT,
        0 <= j < TUBE_COUNT,
        i != j,
    ensures
        !(tube_rect(i).contains(x, y) && tube_rect(j).contains(x, y)),
{
}

/// Every tube lies on the screen, and every portion inside its tube.
pub proof fn lemma_rects_on_screen(index: int, slot: int, x: int, y: int)
    requires
        0 <= index < TUBE_COUNT,
        0 <= slot < MAX_PORTION,
    ensures
        tube_rect(index).contains(x, y) ==> 0 <= x < SCREEN_WIDTH && 0 <= y < SCREEN_HEIGHT,
        slot_rect(index, slot).contains(x, y) ==> tube_rect(index).contains(x, y),
{
}

/// Distinct colors in play are painted in distinct colors.
pub proof fn lemma_palette_injective(a: i32, b: i32)
    requires
        is_color(a),
        is_color(b),
        a != b,
    ensures
        palette(a) != palette(b),
{
}

} // verus!
