use vstd::prelude::*;
use crate::atom::{Atom, Vec2i};
use crate::chunk::Chunk;
use crate::consts::{CHUNK_LEN, CHUNK_LENGTH, MAX_GRID_DIM};
use crate::coords::in_window_range;
use crate::render::DeferredUpdate;

verus! {

/// A 3x3 neighborhood view: the chunk at `(center_x, center_y)` together
/// with its up-to-8 neighbors, addressed through the window coordinate
/// space `[0, 3 * CHUNK_LENGTH)^2`; positions of neighbors that lie outside
/// the grid resolve to "no cell here".
#[derive(Clone, Copy, PartialEq, Eq, Structural, Debug)]
pub struct ChunkGroup {
    pub center_x: usize,
    pub center_y: usize,
}

impl ChunkGroup {
    pub open spec fn wf(self, g: Grid) -> bool {
        &&& self.center_x < g.grid_width
        &&& self.center_y < g.grid_height
    }
}

/// The whole world: all chunks in row-major order, the accumulated leftover
/// world time, the tick counter, the tunable physics constants, and the
/// deferred render updates of the current tick.
pub struct Grid {
    pub chunks: Vec<Chunk>,
    /// Width in chunks; always even.
    pub grid_width: usize,
    /// Height in chunks; always even.
    pub grid_height: usize,
    /// Accumulated world time not yet consumed by a fixed step, microseconds.
    pub dt: u64,
    /// Number of completed fixed-step sweeps.
    pub tick_count: u64,
    /// Gravity acceleration, cells per tick squared; at least 1.
    pub gravity: u8,
    /// Terminal fall velocity, cells per tick; at least 1.
    pub terminal_velocity: u8,
    /// Deferred render updates accumulated since the last drain.
    pub updates: Vec<DeferredUpdate>,
}

/// Row-major index of a local cell position given by window position `p`
/// inside its chunk.
pub open spec fn window_ai(p: Vec2i) -> int {
    (p.y as int % CHUNK_LENGTH as int) * CHUNK_LENGTH as int + p.x as int % CHUNK_LENGTH as int
}

impl Grid {
    pub open spec fn n_chunks(self) -> int {
        self.grid_width as int * self.grid_height as int
    }

    pub open spec fn wf(self) -> bool {
        &&& self.grid_width as int % 2 == 0
        &&& self.grid_height as int % 2 == 0
        &&& 2 <= self.grid_width as int
        &&& self.grid_width as int <= MAX_GRID_DIM as int
        &&& 2 <= self.grid_height as int
        &&& self.grid_height as int <= MAX_GRID_DIM as int
        &&& self.chunks@.len() == self.n_chunks()
        &&& forall|i: int| 0 <= i < self.chunks@.len() ==> (#[trigger] self.chunks@[i]).wf()
        &&& self.gravity >= 1
        &&& self.terminal_velocity >= 1
    }

    /// Dimensions and physics constants agree.
    pub open spec fn same_config(self, o: Grid) -> bool {
        &&& self.grid_width == o.grid_width
        &&& self.grid_height == o.grid_height
        &&& self.gravity == o.gravity
        &&& self.terminal_velocity == o.terminal_velocity
    }

    pub open spec fn valid_cell(self, ci: int, ai: int) -> bool {
        &&& 0 <= ci < self.chunks@.len()
        &&& 0 <= ai < CHUNK_LEN as int
    }

    pub open spec fn cell(self, ci: int, ai: int) -> Atom {
        self.chunks@[ci].atoms@[ai]
    }

    /// Grid x of the chunk that window position `p` of group `g` falls in.
    pub open spec fn window_cx(self, g: ChunkGroup, p: Vec2i) -> int {
        g.center_x as int - 1 + p.x as int / CHUNK_LENGTH as int
    }

    pub open spec fn window_cy(self, g: ChunkGroup, p: Vec2i) -> int {
        g.center_y as int - 1 + p.y as int / CHUNK_LENGTH as int
    }

    /// Whether window position `p` of group `g` falls on a chunk that
    /// exists: inside the window range, and not beyond the grid border.
    pub open spec fn window_present(self, g: ChunkGroup, p: Vec2i) -> bool {
        &&& in_window_range(p)
        &&& 0 <= self.window_cx(g, p) < self.grid_width as int
        &&& 0 <= self.window_cy(g, p) < self.grid_height as int
    }

    pub open spec fn window_ci(self, g: ChunkGroup, p: Vec2i) -> int {
        self.window_cy(g, p) * self.grid_width as int + self.window_cx(g, p)
    }

    /// The atom at window position `p` of group `g`.
    pub open spec fn window_atom(self, g: ChunkGroup, p: Vec2i) -> Atom {
        self.cell(self.window_ci(g, p), window_ai(p))
    }

    /// Whether world cell position `p` (in cells, over the whole grid) is
    /// inside the grid.
    pub open spec fn world_valid(self, p: Vec2i) -> bool {
        &&& 0 <= p.x < self.grid_width as int * CHUNK_LENGTH as int
        &&& 0 <= p.y < self.grid_height as int * CHUNK_LENGTH as int
    }

    pub open spec fn world_ci(self, p: Vec2i) -> int {
        (p.y as int / CHUNK_LENGTH as int) * self.grid_width as int + p.x as int / CHUNK_LENGTH as int
    }

    pub open spec fn world_cell(self, p: Vec2i) -> Atom {
        self.cell(self.world_ci(p), window_ai(p))
    }
}

/// Distinct chunk coordinates have distinct row-major indices.
pub proof fn lemma_row_major_injective(w: int, x1: int, y1: int, x2: int, y2: int)
    requires
        0 <= x1 < w,
        0 <= x2 < w,
        !(x1 == x2 && y1 == y2),
    ensures
        y1 * w + x1 != y2 * w + x2,
{
    assert(y1 * w + x1 != y2 * w + x2) by (nonlinear_arith)
        requires
            0 <= x1 < w,
            0 <= x2 < w,
            !(x1 == x2 && y1 == y2),
    ;
}

/// A chunk coordinate inside the grid has a row-major index inside the
/// chunk array, and the array is small.
pub proof fn lemma_grid_index_bound(w: int, h: int, x: int, y: int)
    requires
        0 <= x < w,
        0 <= y < h,
        w <= MAX_GRID_DIM as int,
        h <= MAX_GRID_DIM as int,
    ensures
        0 <= y * w + x < w * h,
        w * h <= 1024 * 1024,
{
    assert(0 <= y * w + x < w * h && w * h <= 1024 * 1024) by (nonlinear_arith)
        requires
            0 <= x < w,
            0 <= y < h,
            w <= 1024,
            h <= 1024,
    ;
}

/// Two distinct window positions of one group resolve to distinct cells.
pub proof fn lemma_resolve_injective(g: Grid, gr: ChunkGroup, p1: Vec2i, p2: Vec2i)
    requires
        g.wf(),
        gr.wf(g),
        g.window_present(gr, p1),
        g.window_present(gr, p2),
        p1 != p2,
    ensures
        !(g.window_ci(gr, p1) == g.window_ci(gr, p2) && window_ai(p1) == window_ai(p2)),
{
    let side = CHUNK_LENGTH as int;
    vstd::arithmetic::div_mod::lemma_fundamental_div_mod(p1.x as int, side);
    vstd::arithmetic::div_mod::lemma_fundamental_div_mod(p1.y as int, side);
    vstd::arithmetic::div_mod::lemma_fundamental_div_mod(p2.x as int, side);
    vstd::arithmetic::div_mod::lemma_fundamental_div_mod(p2.y as int, side);
    if g.window_cx(gr, p1) == g.window_cx(gr, p2) && g.window_cy(gr, p1) == g.window_cy(gr, p2) {
        // same chunk: the local positions differ, so the local indices differ
        assert(p1.x as int % side != p2.x as int % side || p1.y as int % side != p2.y as int % side);
    } else {
        lemma_row_major_injective(
            g.grid_width as int,
            g.window_cx(gr, p1),
            g.window_cy(gr, p1),
            g.window_cx(gr, p2),
            g.window_cy(gr, p2),
        );
    }
}

/// Resolves a window position of a group to `(chunk index, cell index)` in
/// the grid, or `None` when it falls outside the window or off the grid.
pub fn resolve(grid: &Grid, group: &ChunkGroup, pos: Vec2i) -> (r: Option<(usize, usize)>)
    requires
        grid.wf(),
        group.wf(*grid),
    ensures
        match r {
            Some(p) => {
                &&& grid.window_present(*group, pos)
                &&& p.0 as int == grid.window_ci(*group, pos)
                &&& p.1 as int == window_ai(pos)
                &&& grid.valid_cell(p.0 as int, p.1 as int)
            },
            None => !grid.window_present(*group, pos),
        },
{
    let side = CHUNK_LENGTH as i32;
    if pos.x < 0 || pos.x >= 3 * side || pos.y < 0 || pos.y >= 3 * side {
        return None;
    }
    let sx = (pos.x / side) as usize;
    let sy = (pos.y / side) as usize;
    // chunk coordinate, offset by +1 to stay in usize
    let cx1 = group.center_x + sx;
    let cy1 = group.center_y + sy;
    if cx1 < 1 || cx1 - 1 >= grid.grid_width || cy1 < 1 || cy1 - 1 >= grid.grid_height {
        return None;
    }
    let cx = cx1 - 1;
    let cy = cy1 - 1;
    proof {
        lemma_grid_index_bound(grid.grid_width as int, grid.grid_height as int, cx as int, cy as int);
    }
    let ci = cy * grid.grid_width + cx;
    let ai = ((pos.y % side) * side + pos.x % side) as usize;
    Some((ci, ai))
}

impl Grid {
    /// A fresh world of all-void, active chunks. A requested odd dimension
    /// is rounded up to even, as the four-phase checkerboard requires.
    pub fn new(width: usize, height: usize, gravity: u8, terminal_velocity: u8) -> (r: Grid)
        requires
            1 <= width <= MAX_GRID_DIM,
            1 <= height <= MAX_GRID_DIM,
            gravity >= 1,
            terminal_velocity >= 1,
        ensures
            r.wf(),
            r.grid_width as int == width as int + width as int % 2,
            r.grid_height as int == height as int + height as int % 2,
            r.gravity == gravity,
            r.terminal_velocity == terminal_velocity,
            r.dt == 0,
            r.tick_count == 0,
            r.updates@.len() == 0,
            forall|ci: int, ai: int| r.valid_cell(ci, ai) ==> #[trigger] r.cell(ci, ai) == Atom::void_spec(),
            forall|ci: int| 0 <= ci < r.chunks@.len() ==> (#[trigger] r.chunks@[ci]).active,
    {
        let w = if width % 2 != 0 { width + 1 } else { width };
        let h = if height % 2 != 0 { height + 1 } else { height };
        proof {
            lemma_grid_index_bound(w as int, h as int, w as int - 1, h as int - 1);
        }
        let n = w * h;
        let mut chunks: Vec<Chunk> = Vec::new();
        let mut i: usize = 0;
        while i < n
            invariant
                i <= n,
                chunks@.len() == i,
                forall|k: int| 0 <= k < i ==> (#[trigger] chunks@[k]).wf(),
                forall|k: int| 0 <= k < i ==> (#[trigger] chunks@[k]).active,
                forall|k: int, a: int|
                    0 <= k < i && 0 <= a < CHUNK_LEN as int
                        ==> #[trigger] chunks@[k].atoms@[a] == Atom::void_spec(),
            decreases n - i,
        {
            chunks.push(Chunk::new());
            i += 1;
        }
        Grid {
            chunks,
            grid_width: w,
            grid_height: h,
            dt: 0,
            tick_count: 0,
            gravity,
            terminal_velocity,
            updates: Vec::new(),
        }
    }

    /// The atom at a world cell position, or `None` outside the grid.
    pub fn cell_at(&self, pos: Vec2i) -> (r: Option<Atom>)
        requires
            self.wf(),
        ensures
            self.world_valid(pos) ==> r == Some(self.world_cell(pos)),
            !self.world_valid(pos) ==> r is None,
    {
        let side = CHUNK_LENGTH as i32;
        if pos.x < 0 || pos.y < 0 || pos.x >= (self.grid_width as i32) * side
            || pos.y >= (self.grid_height as i32) * side {
            return None;
        }
        let cx = (pos.x / side) as usize;
        let cy = (pos.y / side) as usize;
        proof {
            lemma_grid_index_bound(self.grid_width as int, self.grid_height as int, cx as int, cy as int);
        }
        let ci = cy * self.grid_width + cx;
        let ai = ((pos.y % side) * side + pos.x % side) as usize;
        Some(self.chunks[ci].atoms[ai])
    }

    /// Writes an atom at a world cell position, for authoring; rejects a
    /// position outside the grid. A written chunk is woken, and the write
    /// is recorded for the render collaborator.
    pub fn set_cell(&mut self, pos: Vec2i, atom: Atom) -> (ok: bool)
        requires
            old(self).wf(),
        ensures
            final(self).wf(),
            final(self).same_config(*old(self)),
            final(self).dt == old(self).dt,
            final(self).tick_count == old(self).tick_count,
            ok <==> old(self).world_valid(pos),
            !ok ==> *final(self) == *old(self),
            ok ==> final(self).world_cell(pos) == atom,
            ok ==> forall|cj: int, aj: int|
                old(self).valid_cell(cj, aj)
                    && !(cj == old(self).world_ci(pos) && aj == window_ai(pos))
                    ==> #[trigger] final(self).cell(cj, aj) == old(self).cell(cj, aj),
            ok ==> final(self).chunks@[old(self).world_ci(pos)].active,
            ok ==> forall|cj: int|
                0 <= cj < old(self).chunks@.len() && cj != old(self).world_ci(pos)
                    ==> #[trigger] final(self).chunks@[cj].active == old(self).chunks@[cj].active,
            ok ==> final(self).updates@ == old(self).updates@
                .push(DeferredUpdate::UpdateImage {
                    chunk_idx: old(self).world_ci(pos) as usize,
                    pos: crate::coords::g2l_local_spec(pos),
                })
                .push(DeferredUpdate::UpdateDirtyRect {
                    chunk_idx: old(self).world_ci(pos) as usize,
                    pos: crate::coords::g2l_local_spec(pos),
                }),
    {
        let side = CHUNK_LENGTH as i32;
        if pos.x < 0 || pos.y < 0 || pos.x >= (self.grid_width as i32) * side
            || pos.y >= (self.grid_height as i32) * side {
            return false;
        }
        let cx = (pos.x / side) as usize;
        let cy = (pos.y / side) as usize;
        proof {
            lemma_grid_index_bound(self.grid_width as int, self.grid_height as int, cx as int, cy as int);
        }
        let ci = cy * self.grid_width + cx;
        let local = Vec2i { x: pos.x % side, y: pos.y % side };
        let ai = ((pos.y % side) * side + pos.x % side) as usize;
        self.chunks[ci].atoms[ai] = atom;
        self.chunks[ci].active = true;
        self.updates.push(DeferredUpdate::UpdateImage { chunk_idx: ci, pos: local });
        self.updates.push(DeferredUpdate::UpdateDirtyRect { chunk_idx: ci, pos: local });
        true
    }

    /// Drains the deferred render updates accumulated since the last drain,
    /// leaving the tracker empty; the simulation state is untouched.
    pub fn dirty_regions(&mut self) -> (r: Vec<DeferredUpdate>)
        ensures
            r@ == old(self).updates@,
            final(self).updates@.len() == 0,
            final(self).chunks == old(self).chunks,
            final(self).same_config(*old(self)),
            final(self).dt == old(self).dt,
            final(self).tick_count == old(self).tick_count,
    {
        let mut out: Vec<DeferredUpdate> = Vec::new();
        core::mem::swap(&mut out, &mut self.updates);
        out
    }
}

} // verus!
