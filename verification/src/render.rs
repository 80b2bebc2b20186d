use vstd::prelude::*;
use crate::atom::Vec2i;
use crate::consts::CHUNK_LENGTH;

verus! {

/// A deferred render update: one cell of one chunk whose pixel must be
/// repainted, or one position that must widen a chunk's dirty rectangle.
/// Workers only append these; a render collaborator drains them once per
/// tick, after all phases.
#[derive(Clone, Copy, PartialEq, Eq, Structural, Debug)]
pub enum DeferredUpdate {
    UpdateImage { chunk_idx: usize, pos: Vec2i },
    UpdateDirtyRect { chunk_idx: usize, pos: Vec2i },
}

/// An axis-aligned rectangle of local cell positions, kept clamped to one
/// chunk's `[0, CHUNK_LENGTH)^2` area.
#[derive(Clone, Copy, PartialEq, Eq, Structural, Debug)]
pub struct Rect {
    pub min: Vec2i,
    pub max: Vec2i,
}

/// Clamp of a coordinate to `[0, CHUNK_LENGTH - 1]`.
pub open spec fn clamp_to_chunk_spec(v: int) -> int {
    if v < 0 {
        0
    } else if v > CHUNK_LENGTH as int - 1 {
        CHUNK_LENGTH as int - 1
    } else {
        v
    }
}

/// The rectangle after widening it, if needed, toward `p`: per axis, a
/// coordinate below the minimum lowers the minimum, else one above the
/// maximum raises the maximum; the moved edge is clamped to the chunk.
pub open spec fn extend_rect_spec(r: Rect, p: Vec2i) -> Rect {
    let min_x: int = if p.x < r.min.x { clamp_to_chunk_spec(p.x as int) } else { r.min.x as int };
    let max_x: int = if p.x < r.min.x {
        r.max.x as int
    } else if p.x > r.max.x {
        clamp_to_chunk_spec(p.x as int)
    } else {
        r.max.x as int
    };
    let min_y: int = if p.y < r.min.y { clamp_to_chunk_spec(p.y as int) } else { r.min.y as int };
    let max_y: int = if p.y < r.min.y {
        r.max.y as int
    } else if p.y > r.max.y {
        clamp_to_chunk_spec(p.y as int)
    } else {
        r.max.y as int
    };
    Rect {
        min: Vec2i { x: min_x as i32, y: min_y as i32 },
        max: Vec2i { x: max_x as i32, y: max_y as i32 },
    }
}

fn clamp_to_chunk(v: i32) -> (r: i32)
    ensures
        r as int == clamp_to_chunk_spec(v as int),
{
    let hi = CHUNK_LENGTH as i32 - 1;
    if v < 0 {
        0
    } else if v > hi {
        hi
    } else {
        v
    }
}

/// Widens `rect` toward `pos` if `pos` lies outside it, clamping the moved
/// edge to the chunk's area.
pub fn extend_rect_if_needed(rect: &mut Rect, pos: &Vec2i)
    ensures
        *final(rect) == extend_rect_spec(*old(rect), *pos),
{
    if pos.x < rect.min.x {
        rect.min.x = clamp_to_chunk(pos.x);
    } else if pos.x > rect.max.x {
        rect.max.x = clamp_to_chunk(pos.x);
    }

    if pos.y < rect.min.y {
        rect.min.y = clamp_to_chunk(pos.y);
    } else if pos.y > rect.max.y {
        rect.max.y = clamp_to_chunk(pos.y);
    }
}

} // verus!
