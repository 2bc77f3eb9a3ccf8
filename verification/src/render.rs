//! Render hints: the (glyph, foreground, background) triple kept per occupied
//! cell. The engine and the mutating requests recompute these from a
//! segment's (direction, token) pair, so the rendering collaborator needs no
//! logic of its own.

use vstd::prelude::*;

use crate::network::{Resource, ResourceMover};
use crate::grid::Direction;

verus! {

/// Glyph code for a coal token, `c`.
pub const GLYPH_COAL: u8 = 99;

/// Glyph code for a belt feeding up, `^`.
pub const GLYPH_BELT_UP: u8 = 94;

/// Glyph code for a belt feeding down, `v`.
pub const GLYPH_BELT_DOWN: u8 = 118;

/// Glyph code for a belt feeding left, `<`.
pub const GLYPH_BELT_LEFT: u8 = 60;

/// Glyph code for a belt feeding right, `>`.
pub const GLYPH_BELT_RIGHT: u8 = 62;

/// A named palette colour; the rendering collaborator maps each name to a
/// concrete colour value.
#[derive(Clone, Copy, PartialEq, Eq, Structural, Debug)]
pub enum PaletteColor {
    Black,
    Yellow,
    Red,
    DarkGrey,
    Grey30,
    Green,
    Red1,
}

/// A glyph with the colour it is drawn in.
#[derive(Clone, Copy, PartialEq, Eq, Structural, Debug)]
pub struct Foreground {
    pub glyph: u8,
    pub color: PaletteColor,
}

impl Foreground {
    /// The glyph and colour a resource token is drawn with.
    pub open spec fn of_resource(resource: Resource) -> Foreground {
        match resource {
            Resource::Coal => Foreground { glyph: GLYPH_COAL, color: PaletteColor::Black },
        }
    }

    /// Foreground of a resource token.
    pub fn from_resource(resource: Resource) -> (f: Foreground)
        ensures
            f == Foreground::of_resource(resource),
    {
        match resource {
            Resource::Coal => Foreground { glyph: GLYPH_COAL, color: PaletteColor::Black },
        }
    }

    /// The foreground a segment shows: its token if it holds one, else the
    /// arrow glyph of its direction.
    pub open spec fn of_mover(belt: ResourceMover) -> Foreground {
        match belt.payload {
            Some(payload) => Foreground::of_resource(payload),
            None => match belt.direction {
                Direction::Up => Foreground { glyph: GLYPH_BELT_UP, color: PaletteColor::Yellow },
                Direction::Down => Foreground { glyph: GLYPH_BELT_DOWN, color: PaletteColor::Yellow },
                Direction::Left => Foreground { glyph: GLYPH_BELT_LEFT, color: PaletteColor::Yellow },
                Direction::Right => Foreground { glyph: GLYPH_BELT_RIGHT, color: PaletteColor::Yellow },
            },
        }
    }

    /// Foreground of a conveyor segment.
    pub fn from_mover(belt: &ResourceMover) -> (f: Foreground)
        ensures
            f == Foreground::of_mover(*belt),
    {
        match belt.payload {
            Some(payload) => Foreground::from_resource(payload),
            None => match belt.direction {
                Direction::Up => Foreground { glyph: GLYPH_BELT_UP, color: PaletteColor::Yellow },
                Direction::Down => Foreground { glyph: GLYPH_BELT_DOWN, color: PaletteColor::Yellow },
                Direction::Left => Foreground { glyph: GLYPH_BELT_LEFT, color: PaletteColor::Yellow },
                Direction::Right => Foreground { glyph: GLYPH_BELT_RIGHT, color: PaletteColor::Yellow },
            },
        }
    }
}

/// What the rendering collaborator reads for one occupied cell.
#[derive(Clone, Copy, PartialEq, Eq, Structural, Debug)]
pub struct Renderable {
    pub glyph: u8,
    pub fg: PaletteColor,
    pub bg: PaletteColor,
}

impl Renderable {
    /// This hint with its glyph and foreground replaced; the background is
    /// kept.
    pub open spec fn merged(self, foreground: Foreground) -> Renderable {
        Renderable { glyph: foreground.glyph, fg: foreground.color, bg: self.bg }
    }

    /// Replace the glyph and foreground colour, keeping the background.
    pub fn merge_foreground(&mut self, foreground: Foreground)
        ensures
            *final(self) == old(self).merged(foreground),
    {
        self.fg = foreground.color;
        self.glyph = foreground.glyph;
    }
}

} // verus!
