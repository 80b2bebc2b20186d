use vstd::prelude::*;
use vstd::arithmetic::div_mod::{lemma_fundamental_div_mod, lemma_mod_bound, lemma_div_pos_is_pos};
use crate::atom::Vec2i;
use crate::consts::{CHUNK_LENGTH, WINDOW_LENGTH, ATOM_SIZE, MAX_GRID_DIM};

verus! {

/// Whether a position lies inside the 3x3-window coordinate space
/// `[0, 3 * CHUNK_LENGTH)^2`.
pub open spec fn in_window_range(p: Vec2i) -> bool {
    &&& 0 <= p.x < WINDOW_LENGTH as int
    &&& 0 <= p.y < WINDOW_LENGTH as int
}

/// Whether a position is a valid local cell position, `[0, CHUNK_LENGTH)^2`.
pub open spec fn in_local_range(p: Vec2i) -> bool {
    &&& 0 <= p.x < CHUNK_LENGTH as int
    &&& 0 <= p.y < CHUNK_LENGTH as int
}

/// Local cell position of a window position.
pub open spec fn g2l_local_spec(p: Vec2i) -> Vec2i {
    Vec2i { x: (p.x as int % CHUNK_LENGTH as int) as i32, y: (p.y as int % CHUNK_LENGTH as int) as i32 }
}

/// Window slot (0..9, row-major over the 3x3 chunks) of a window position.
pub open spec fn g2l_slot_spec(p: Vec2i) -> i32 {
    ((p.y as int / CHUNK_LENGTH as int) * 3 + p.x as int / CHUNK_LENGTH as int) as i32
}

/// Window position of a (local position, window slot) pair.
pub open spec fn l2g_spec(local: Vec2i, slot: i32) -> Vec2i {
    Vec2i {
        x: (local.x as int + (slot as int % 3) * CHUNK_LENGTH as int) as i32,
        y: (local.y as int + (slot as int / 3) * CHUNK_LENGTH as int) as i32,
    }
}

/// Splits a 3x3-window position into the local position inside one chunk and
/// the slot of that chunk in the window. Purely arithmetic.
pub fn global_to_local(pos: Vec2i) -> (r: (Vec2i, i32))
    requires
        in_window_range(pos),
    ensures
        r.0 == g2l_local_spec(pos),
        r.1 == g2l_slot_spec(pos),
        in_local_range(r.0),
        0 <= r.1 < 9,
{
    let side = CHUNK_LENGTH as i32;
    let chunk_x = pos.x / side;
    let chunk_y = pos.y / side;
    let local_x = pos.x % side;
    let local_y = pos.y % side;
    (Vec2i { x: local_x, y: local_y }, chunk_y * 3 + chunk_x)
}

/// Rebuilds the 3x3-window position from a local position and a window slot.
/// Exact inverse of [`global_to_local`].
pub fn local_to_global(pos: (Vec2i, i32)) -> (r: Vec2i)
    requires
        in_local_range(pos.0),
        0 <= pos.1 < 9,
    ensures
        r == l2g_spec(pos.0, pos.1),
        in_window_range(r),
{
    let side = CHUNK_LENGTH as i32;
    let chunk_x = pos.1 % 3;
    let chunk_y = pos.1 / 3;
    Vec2i { x: pos.0.x + side * chunk_x, y: pos.0.y + side * chunk_y }
}

/// Round-trip law of the coordinate mapper: splitting a window position into
/// (local, slot) and rebuilding it returns the original position, for every
/// valid window position.
pub proof fn lemma_coord_round_trip(p: Vec2i)
    requires
        in_window_range(p),
    ensures
        l2g_spec(g2l_local_spec(p), g2l_slot_spec(p)) == p,
{
    let side = CHUNK_LENGTH as int;
    lemma_fundamental_div_mod(p.x as int, side);
    lemma_fundamental_div_mod(p.y as int, side);
    let sx = p.x as int / side;
    let sy = p.y as int / side;
    assert(0 <= sx < 3);
    assert(0 <= sy < 3);
    let slot = sy * 3 + sx;
    assert(slot % 3 == sx && slot / 3 == sy) by (nonlinear_arith)
        requires
            0 <= sx < 3,
            0 <= sy < 3,
            slot == sy * 3 + sx,
    ;
    assert(l2g_spec(g2l_local_spec(p), g2l_slot_spec(p)).x == p.x);
    assert(l2g_spec(g2l_local_spec(p), g2l_slot_spec(p)).y == p.y);
}

/// The opposite round trip: rebuilding a window position from (local, slot)
/// and splitting it again returns the same pair.
pub proof fn lemma_coord_round_trip_back(local: Vec2i, slot: i32)
    requires
        in_local_range(local),
        0 <= slot < 9,
    ensures
        g2l_local_spec(l2g_spec(local, slot)) == local,
        g2l_slot_spec(l2g_spec(local, slot)) == slot,
{
    let side = CHUNK_LENGTH as int;
    let g = l2g_spec(local, slot);
    assert((local.x as int + (slot as int % 3) * side) % side == local.x as int
        && (local.x as int + (slot as int % 3) * side) / side == slot as int % 3) by (nonlinear_arith)
        requires
            0 <= local.x as int,
            local.x < 64,
            0 <= (slot as int) % 3,
            (slot as int) % 3 < 3,
            side == 64,
    ;
    assert((local.y as int + (slot as int / 3) * side) % side == local.y as int
        && (local.y as int + (slot as int / 3) * side) / side == slot as int / 3) by (nonlinear_arith)
        requires
            0 <= local.y as int,
            local.y < 64,
            0 <= (slot as int) / 3,
            (slot as int) / 3 < 3,
            side == 64,
    ;
    assert(g2l_local_spec(g) == local);
    assert((slot as int / 3) * 3 + slot as int % 3 == slot as int);
}

/// Chunk-array index and local cell position for a pointer position given in
/// screen pixels, or `None` when the position lies outside the grid.
pub open spec fn transform_to_chunk_spec(pos: Vec2i, width: int, height: int) -> Option<(Vec2i, i32)> {
    let scale = (CHUNK_LENGTH * ATOM_SIZE) as int;
    if pos.x < 0 || pos.y < 0 || pos.x as int / scale >= width || pos.y as int / scale >= height {
        None
    } else {
        Some((
            Vec2i {
                x: ((pos.x as int / ATOM_SIZE as int) % CHUNK_LENGTH as int) as i32,
                y: ((pos.y as int / ATOM_SIZE as int) % CHUNK_LENGTH as int) as i32,
            },
            ((pos.y as int / scale) * width + pos.x as int / scale) as i32,
        ))
    }
}

/// Maps a screen-pixel position to `(local cell position, chunk-array index)`
/// for a grid of `width x height` chunks; `None` outside the grid.
pub fn transform_to_chunk(pos: Vec2i, width: usize, height: usize) -> (r: Option<(Vec2i, i32)>)
    requires
        width <= MAX_GRID_DIM,
        height <= MAX_GRID_DIM,
    ensures
        r == transform_to_chunk_spec(pos, width as int, height as int),
{
    if pos.x < 0 || pos.y < 0 {
        return None;
    }
    let scale = (CHUNK_LENGTH * ATOM_SIZE) as i32;
    let chunk_x = pos.x / scale;
    let chunk_y = pos.y / scale;
    if chunk_x >= width as i32 || chunk_y >= height as i32 {
        return None;
    }
    let atom_x = (pos.x / (ATOM_SIZE as i32)) % (CHUNK_LENGTH as i32);
    let atom_y = (pos.y / (ATOM_SIZE as i32)) % (CHUNK_LENGTH as i32);
    proof {
        lemma_mod_bound(pos.x as int / ATOM_SIZE as int, CHUNK_LENGTH as int);
        lemma_mod_bound(pos.y as int / ATOM_SIZE as int, CHUNK_LENGTH as int);
        lemma_div_pos_is_pos(pos.x as int, scale as int);
        lemma_div_pos_is_pos(pos.y as int, scale as int);
        assert(chunk_y as int * width as int <= 1023 * 1024) by (nonlinear_arith)
            requires
                0 <= chunk_y as int,
                chunk_y as int <= 1023,
                0 <= width as int,
                width as int <= 1024,
        ;
    }
    Some((Vec2i { x: atom_x, y: atom_y }, chunk_y * (width as i32) + chunk_x))
}

} // verus!
