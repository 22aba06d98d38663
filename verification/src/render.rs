//! What a frame shows, in the pixels of a fixed canvas: the two walls as
//! polylines and one picture, the helicopter or its explosion.
//!
//! The canvas is `CANVAS_WIDTH` by `CANVAS_HEIGHT` pixels and its rows count
//! downward, so the height 1.0 is row 0.

use crate::fixed::{div_toward_zero, ONE};
use crate::simulation::AppState;
use crate::tunnel::{ceiling_line, ground_line};
use crate::vector::V2;
use vstd::prelude::*;

verus! {

pub const CANVAS_WIDTH: u32 = 1024;

pub const CANVAS_HEIGHT: u32 = 640;

/// Both pictures are `PICTURE_WIDTH` wide and centred on the helicopter.
pub const PICTURE_WIDTH: u32 = 64;

pub const HELICOPTER_HEIGHT: u32 = 24;

pub const EXPLOSION_HEIGHT: u32 = 64;

/// A place on the canvas.
#[derive(Clone, Copy, Debug, PartialEq, Eq, Structural)]
pub struct Pixel {
    pub x: i32,
    pub y: i32,
}

/// Which picture stands for the helicopter.
#[derive(Clone, Copy, Debug, PartialEq, Eq, Structural)]
pub enum Sprite {
    Helicopter,
    Explosion,
}

/// A picture and the rectangle it fills; `corner` is the rectangle's top left.
#[derive(Clone, Copy, Debug, PartialEq, Eq, Structural)]
pub struct Picture {
    pub sprite: Sprite,
    pub corner: Pixel,
    pub width: u32,
    pub height: u32,
}

/// All that one frame shows.
#[derive(Clone, Debug, PartialEq, Eq)]
pub struct Frame {
    pub ground: Vec<Pixel>,
    pub ceiling: Vec<Pixel>,
    pub picture: Picture,
}

/// The number nearest to `v` that an `i32` holds.
pub open spec fn clamp_pixel(v: int) -> i32 {
    if v > i32::MAX {
        i32::MAX
    } else if v < i32::MIN {
        i32::MIN
    } else {
        v as i32
    }
}

/// The pixel that the point falls on: its coordinates scaled to the canvas,
/// the height counted from the top, each rounded toward zero.
pub open spec fn pixel_of(p: V2) -> Pixel {
    Pixel {
        x: clamp_pixel(div_toward_zero(p.x * CANVAS_WIDTH, ONE as int)),
        y: clamp_pixel(div_toward_zero((ONE - p.y) * CANVAS_HEIGHT, ONE as int)),
    }
}

/// The pixels that the points of a polyline fall on.
pub open spec fn pixels_of(line: Seq<V2>) -> Seq<Pixel> {
    Seq::new(line.len(), |i: int| pixel_of(line[i]))
}

/// The picture of the helicopter at `position`: the explosion after a
/// collision, else the helicopter, centred on the position's pixel.
pub open spec fn picture_of(position: V2, collided: bool) -> Picture {
    let center = pixel_of(position);
    let height = if collided {
        EXPLOSION_HEIGHT
    } else {
        HELICOPTER_HEIGHT
    };
    Picture {
        sprite: if collided {
            Sprite::Explosion
        } else {
            Sprite::Helicopter
        },
        corner: Pixel {
            x: clamp_pixel(center.x - PICTURE_WIDTH / 2),
            y: clamp_pixel(center.y - height / 2),
        },
        width: PICTURE_WIDTH,
        height,
    }
}

/// A wide value brought into an `i32`, saturating.
fn narrow_pixel(v: i128) -> (r: i32)
    ensures
        r == clamp_pixel(v as int),
{
    if v > i32::MAX as i128 {
        i32::MAX
    } else if v < i32::MIN as i128 {
        i32::MIN
    } else {
        v as i32
    }
}

/// The pixel that the point falls on.
pub fn to_pixel(p: V2) -> (pixel: Pixel)
    ensures
        pixel == pixel_of(p),
{
    let one: i128 = ONE as i128;
    let x: i128 = (p.x as i128) * (CANVAS_WIDTH as i128) / one;
    let y: i128 = (one - p.y as i128) * (CANVAS_HEIGHT as i128) / one;
    Pixel { x: narrow_pixel(x), y: narrow_pixel(y) }
}

/// The pixels that the points of a polyline fall on.
pub fn to_pixels(line: &Vec<V2>) -> (pixels: Vec<Pixel>)
    ensures
        pixels@ == pixels_of(line@),
{
    let mut pixels: Vec<Pixel> = Vec::new();
    let mut i: usize = 0;
    while i < line.len()
        invariant
            i <= line.len(),
            pixels@ == pixels_of(line@).subrange(0, i as int),
        decreases line.len() - i,
    {
        pixels.push(to_pixel(line[i]));
        i += 1;
    }
    pixels
}

/// The picture of the helicopter at `position`.
pub fn picture(position: V2, collided: bool) -> (p: Picture)
    ensures
        p == picture_of(position, collided),
{
    let center: Pixel = to_pixel(position);
    let height: u32 = if collided {
        EXPLOSION_HEIGHT
    } else {
        HELICOPTER_HEIGHT
    };
    let sprite: Sprite = if collided {
        Sprite::Explosion
    } else {
        Sprite::Helicopter
    };
    let x: i128 = center.x as i128 - (PICTURE_WIDTH / 2) as i128;
    let y: i128 = center.y as i128 - (height / 2) as i128;
    Picture {
        sprite,
        corner: Pixel { x: narrow_pixel(x), y: narrow_pixel(y) },
        width: PICTURE_WIDTH,
        height,
    }
}

/// What the frame shows of the game as it stands.
pub fn render(state: &AppState) -> (frame: Frame)
    ensures
        frame.ground@ == pixels_of(ground_line(state.tunnel@)),
        frame.ceiling@ == pixels_of(ceiling_line(state.tunnel@)),
        frame.picture == picture_of(state.vehicle.position, state.collided),
{
    let ground: Vec<V2> = state.tunnel.ground();
    let ceiling: Vec<V2> = state.tunnel.ceiling();
    Frame {
        ground: to_pixels(&ground),
        ceiling: to_pixels(&ceiling),
        picture: picture(state.vehicle.position, state.collided),
    }
}

} // verus!
