use vstd::prelude::*;
use vstd::arithmetic::div_mod::lemma_fundamental_div_mod_converse;
use crate::atom::{State, Vec2i};
use crate::consts::CHUNK_LENGTH;
use crate::coords::in_window_range;
use crate::grid::{lemma_grid_index_bound, lemma_resolve_injective, window_ai, ChunkGroup, Grid};
use crate::laws::{lemma_swap_conserves_mass, lemma_write_conserves_mass, material_count};
use crate::rng::{rand_range, rng_bool, rng_u8_between};
use crate::atom::Atom;
use crate::consts::CHUNK_LEN;
use crate::window::{dt_updatable, get_fspeed, get_state, is_void, set_fspeed, stamp_atom, swap,
    swap_effect, cell_write_effect, vadd, void_at};

verus! {

/// The window position one cell below `p`.
pub open spec fn below(p: Vec2i) -> Vec2i {
    vadd(p, Vec2i { x: 0, y: 1 })
}

/// The window position `j` cells below `p`.
pub open spec fn below_n(p: Vec2i, j: int) -> Vec2i {
    Vec2i { x: p.x, y: (p.y as int + j) as i32 }
}

/// The window position one step down and `dx` sideways of `p`.
pub open spec fn diag(p: Vec2i, dx: int) -> Vec2i {
    Vec2i { x: (p.x as int + dx) as i32, y: (p.y as int + 1) as i32 }
}

/// The window position `dx` sideways of `p`.
pub open spec fn beside(p: Vec2i, dx: int) -> Vec2i {
    Vec2i { x: (p.x as int + dx) as i32, y: p.y }
}

/// Whether the lower diagonal toward `dx` is open for a slide: both the
/// diagonal cell and the side cell beside the mover must be void, so that
/// nothing slips through a solid corner.
pub open spec fn diag_open(g: Grid, gr: ChunkGroup, p: Vec2i, dx: int) -> bool {
    void_at(g, gr, diag(p, dx)) && void_at(g, gr, beside(p, dx))
}

/// A write at `wp` leaves the cell at any other window position as it was.
pub proof fn lemma_write_preserves_other(
    pre: Grid,
    post: Grid,
    gr: ChunkGroup,
    wp: Vec2i,
    a: Atom,
    q: Vec2i,
)
    requires
        pre.wf(),
        gr.wf(pre),
        pre.window_present(gr, wp),
        cell_write_effect(pre, post, gr, wp, a),
        q != wp,
    ensures
        post.window_present(gr, q) == pre.window_present(gr, q),
        pre.window_present(gr, q) ==> post.window_atom(gr, q) == pre.window_atom(gr, q),
        void_at(post, gr, q) == void_at(pre, gr, q),
{
    if pre.window_present(gr, q) {
        lemma_resolve_injective(pre, gr, wp, q);
        lemma_window_chunk_in_window(pre, gr, q);
        lemma_window_chunk_in_window(pre, gr, wp);
    }
}

/// Whether chunk index `cj` belongs to the 3x3 neighborhood of the group's
/// center chunk.
pub open spec fn chunk_in_window(pre: Grid, g: ChunkGroup, cj: int) -> bool {
    let w = pre.grid_width as int;
    let cx = cj % w;
    let cy = cj / w;
    &&& g.center_x as int - 1 <= cx <= g.center_x as int + 1
    &&& g.center_y as int - 1 <= cy <= g.center_y as int + 1
}

/// Frame of one window update: every chunk outside the 3x3 neighborhood
/// keeps all its cells and its activity flag.
pub open spec fn window_frame(pre: Grid, post: Grid, g: ChunkGroup) -> bool {
    &&& post.chunks@.len() == pre.chunks@.len()
    &&& forall|cj: int, aj: int|
        pre.valid_cell(cj, aj) && !chunk_in_window(pre, g, cj)
            ==> #[trigger] post.cell(cj, aj) == pre.cell(cj, aj)
    &&& forall|cj: int|
        0 <= cj < pre.chunks@.len() && !chunk_in_window(pre, g, cj)
            ==> #[trigger] post.chunks@[cj].active == pre.chunks@[cj].active
}

/// A sequence with the same entries up to `a`'s length extends `a`.
pub proof fn lemma_prefix_via_index<T>(a: Seq<T>, b: Seq<T>)
    requires
        a.len() <= b.len(),
        forall|i: int| 0 <= i < a.len() ==> a[i] == b[i],
    ensures
        a.is_prefix_of(b),
{
    assert(a =~= b.subrange(0, a.len() as int));
}

pub proof fn lemma_prefix_trans<T>(a: Seq<T>, b: Seq<T>, c: Seq<T>)
    requires
        a.is_prefix_of(b),
        b.is_prefix_of(c),
    ensures
        a.is_prefix_of(c),
{
    assert(forall|i: int| 0 <= i < a.len() ==> a[i] == b[i]);
    assert(forall|i: int| 0 <= i < b.len() ==> b[i] == c[i]);
    lemma_prefix_via_index(a, c);
}

/// A chunk that some present window position resolves to lies in the 3x3
/// neighborhood, and inside the chunk array.
pub proof fn lemma_window_chunk_in_window(pre: Grid, g: ChunkGroup, p: Vec2i)
    requires
        pre.wf(),
        g.wf(pre),
        pre.window_present(g, p),
    ensures
        chunk_in_window(pre, g, pre.window_ci(g, p)),
        0 <= pre.window_ci(g, p) < pre.chunks@.len(),
        0 <= window_ai(p) < crate::consts::CHUNK_LEN as int,
{
    let w = pre.grid_width as int;
    let wcx = pre.window_cx(g, p);
    let wcy = pre.window_cy(g, p);
    lemma_fundamental_div_mod_converse(wcy * w + wcx, w, wcy, wcx);
    lemma_grid_index_bound(w, pre.grid_height as int, wcx, wcy);
}

/// `window_frame` composes across two updates of the same group.
pub proof fn lemma_window_frame_trans(g0: Grid, g1: Grid, g2: Grid, g: ChunkGroup)
    requires
        g1.grid_width == g0.grid_width,
        window_frame(g0, g1, g),
        window_frame(g1, g2, g),
    ensures
        window_frame(g0, g2, g),
{
}

/// A single-cell write inside the window respects the window frame.
pub proof fn lemma_write_window_frame(pre: Grid, post: Grid, g: ChunkGroup, p: Vec2i, a: crate::atom::Atom)
    requires
        pre.wf(),
        g.wf(pre),
        pre.window_present(g, p),
        cell_write_effect(pre, post, g, p, a),
    ensures
        window_frame(pre, post, g),
{
    lemma_window_chunk_in_window(pre, g, p);
}

/// A swap inside the window respects the window frame.
pub proof fn lemma_swap_window_frame(pre: Grid, post: Grid, g: ChunkGroup, p1: Vec2i, p2: Vec2i, tick: u64)
    requires
        pre.wf(),
        g.wf(pre),
        pre.window_present(g, p1),
        pre.window_present(g, p2),
        swap_effect(pre, post, g, p1, p2, tick),
    ensures
        window_frame(pre, post, g),
        pre.updates@.is_prefix_of(post.updates@),
{
    lemma_window_chunk_in_window(pre, g, p1);
    lemma_window_chunk_in_window(pre, g, p2);
    lemma_prefix_via_index(pre.updates@, post.updates@);
}

/// Facts of one swap step: frame, prefix, every changed cell stamped,
/// every newly woken chunk holding a stamped cell, and mass preserved.
pub proof fn lemma_swap_step(pre: Grid, post: Grid, gr: ChunkGroup, p1: Vec2i, p2: Vec2i, tick: u64)
    requires
        pre.wf(),
        post.wf(),
        gr.wf(pre),
        pre.window_present(gr, p1),
        pre.window_present(gr, p2),
        p1 != p2,
        swap_effect(pre, post, gr, p1, p2, tick),
    ensures
        window_frame(pre, post, gr),
        pre.updates@.is_prefix_of(post.updates@),
        forall|cj: int, aj: int|
            pre.valid_cell(cj, aj) && #[trigger] post.cell(cj, aj) != pre.cell(cj, aj)
                ==> post.cell(cj, aj).updated_at == tick,
        forall|cj: int|
            0 <= cj < pre.chunks@.len() && (#[trigger] post.chunks@[cj]).active
                && !pre.chunks@[cj].active
                ==> exists|aj: int|
                    0 <= aj < CHUNK_LEN as int
                    && (#[trigger] post.cell(cj, aj)).updated_at == tick,
        forall|m: State| #[trigger] material_count(post, m) == material_count(pre, m),
{
    lemma_swap_window_frame(pre, post, gr, p1, p2, tick);
    lemma_resolve_injective(pre, gr, p1, p2);
    lemma_window_chunk_in_window(pre, gr, p1);
    lemma_window_chunk_in_window(pre, gr, p2);
    let ci1 = pre.window_ci(gr, p1);
    let ai1 = window_ai(p1);
    let ci2 = pre.window_ci(gr, p2);
    let ai2 = window_ai(p2);
    assert(post.cell(ci1, ai1).updated_at == tick);
    assert(post.cell(ci2, ai2).updated_at == tick);
    assert forall|cj: int, aj: int|
        pre.valid_cell(cj, aj) && #[trigger] post.cell(cj, aj) != pre.cell(cj, aj)
        implies post.cell(cj, aj).updated_at == tick by {
        if !(cj == ci1 && aj == ai1) && !(cj == ci2 && aj == ai2) {
            assert(post.cell(cj, aj) == pre.cell(cj, aj));
        }
    }
    assert forall|cj: int|
        0 <= cj < pre.chunks@.len() && (#[trigger] post.chunks@[cj]).active
            && !pre.chunks@[cj].active
        implies exists|aj: int|
            0 <= aj < CHUNK_LEN as int
            && (#[trigger] post.cell(cj, aj)).updated_at == tick by {
        assert(cj == ci1 || cj == ci2);
        if cj == ci1 {
            assert(0 <= ai1 < CHUNK_LEN as int && post.cell(cj, ai1).updated_at == tick);
        } else {
            assert(0 <= ai2 < CHUNK_LEN as int && post.cell(cj, ai2).updated_at == tick);
        }
    }
    assert forall|m: State| #[trigger] material_count(post, m) == material_count(pre, m) by {
        lemma_swap_conserves_mass(pre, post, gr, p1, p2, tick, m);
    }
}

/// Facts of a single-cell write at `p1` followed by a swap of `p1` with
/// `p2`: the written atom lands stamped at `p2`, `p1` takes what was at
/// `p2`, and the step-pair stamps everything it changes.
pub proof fn lemma_write_then_swap(
    pre: Grid,
    g1: Grid,
    post: Grid,
    gr: ChunkGroup,
    p1: Vec2i,
    p2: Vec2i,
    a: Atom,
    tick: u64,
)
    requires
        pre.wf(),
        g1.wf(),
        post.wf(),
        gr.wf(pre),
        pre.window_present(gr, p1),
        pre.window_present(gr, p2),
        p1 != p2,
        cell_write_effect(pre, g1, gr, p1, a),
        swap_effect(g1, post, gr, p1, p2, tick),
        a.state == pre.window_atom(gr, p1).state,
    ensures
        window_frame(pre, post, gr),
        pre.updates@.is_prefix_of(post.updates@),
        post.window_atom(gr, p2) == a.stamped(tick),
        post.window_atom(gr, p1) == pre.window_atom(gr, p2).stamped(tick),
        forall|cj: int, aj: int|
            pre.valid_cell(cj, aj) && #[trigger] post.cell(cj, aj) != pre.cell(cj, aj)
                ==> post.cell(cj, aj).updated_at == tick,
        forall|cj: int|
            0 <= cj < pre.chunks@.len() && (#[trigger] post.chunks@[cj]).active
                && !pre.chunks@[cj].active
                ==> exists|aj: int|
                    0 <= aj < CHUNK_LEN as int
                    && (#[trigger] post.cell(cj, aj)).updated_at == tick,
        forall|m: State| #[trigger] material_count(post, m) == material_count(pre, m),
{
    lemma_write_window_frame(pre, g1, gr, p1, a);
    lemma_swap_window_frame(g1, post, gr, p1, p2, tick);
    lemma_window_frame_trans(pre, g1, post, gr);
    lemma_prefix_trans(pre.updates@, g1.updates@, post.updates@);
    lemma_write_preserves_other(pre, g1, gr, p1, a, p2);
    lemma_resolve_injective(pre, gr, p1, p2);
    lemma_window_chunk_in_window(pre, gr, p1);
    lemma_window_chunk_in_window(pre, gr, p2);
    let ci1 = pre.window_ci(gr, p1);
    let ai1 = window_ai(p1);
    let ci2 = pre.window_ci(gr, p2);
    let ai2 = window_ai(p2);
    assert(post.cell(ci1, ai1).updated_at == tick);
    assert(post.cell(ci2, ai2).updated_at == tick);
    assert forall|cj: int, aj: int|
        pre.valid_cell(cj, aj) && #[trigger] post.cell(cj, aj) != pre.cell(cj, aj)
        implies post.cell(cj, aj).updated_at == tick by {
        if !(cj == ci1 && aj == ai1) && !(cj == ci2 && aj == ai2) {
            assert(g1.cell(cj, aj) == pre.cell(cj, aj));
            assert(post.cell(cj, aj) == g1.cell(cj, aj));
        }
    }
    assert forall|cj: int|
        0 <= cj < pre.chunks@.len() && (#[trigger] post.chunks@[cj]).active
            && !pre.chunks@[cj].active
        implies exists|aj: int|
            0 <= aj < CHUNK_LEN as int
            && (#[trigger] post.cell(cj, aj)).updated_at == tick by {
        assert(cj == ci1 || cj == ci2);
        if cj == ci1 {
            assert(0 <= ai1 < CHUNK_LEN as int && post.cell(cj, ai1).updated_at == tick);
        } else {
            assert(0 <= ai2 < CHUNK_LEN as int && post.cell(cj, ai2).updated_at == tick);
        }
    }
    assert forall|m: State| #[trigger] material_count(post, m) == material_count(pre, m) by {
        lemma_write_conserves_mass(pre, g1, gr, p1, a, m);
        lemma_swap_conserves_mass(g1, post, gr, p1, p2, tick, m);
    }
}

/// Facts of a swap of `p1` with `p2` followed by a single-cell write of a
/// stamped atom at `p2`: what was at `p2` lands stamped at `p1`, the write
/// stands at `p2`, and the step-pair stamps everything it changes.
pub proof fn lemma_swap_then_write(
    pre: Grid,
    mid: Grid,
    post: Grid,
    gr: ChunkGroup,
    p1: Vec2i,
    p2: Vec2i,
    a: Atom,
    tick: u64,
)
    requires
        pre.wf(),
        mid.wf(),
        post.wf(),
        gr.wf(pre),
        pre.window_present(gr, p1),
        pre.window_present(gr, p2),
        p1 != p2,
        swap_effect(pre, mid, gr, p1, p2, tick),
        cell_write_effect(mid, post, gr, p2, a),
        a.updated_at == tick,
        a.state == mid.window_atom(gr, p2).state,
    ensures
        window_frame(pre, post, gr),
        pre.updates@.is_prefix_of(post.updates@),
        post.window_atom(gr, p1) == pre.window_atom(gr, p2).stamped(tick),
        post.window_atom(gr, p2) == a,
        forall|cj: int, aj: int|
            pre.valid_cell(cj, aj) && #[trigger] post.cell(cj, aj) != pre.cell(cj, aj)
                ==> post.cell(cj, aj).updated_at == tick,
        forall|cj: int|
            0 <= cj < pre.chunks@.len() && (#[trigger] post.chunks@[cj]).active
                && !pre.chunks@[cj].active
                ==> exists|aj: int|
                    0 <= aj < CHUNK_LEN as int
                    && (#[trigger] post.cell(cj, aj)).updated_at == tick,
        forall|m: State| #[trigger] material_count(post, m) == material_count(pre, m),
{
    lemma_swap_window_frame(pre, mid, gr, p1, p2, tick);
    lemma_write_window_frame(mid, post, gr, p2, a);
    lemma_window_frame_trans(pre, mid, post, gr);
    lemma_prefix_via_index(mid.updates@, post.updates@);
    lemma_prefix_trans(pre.updates@, mid.updates@, post.updates@);
    lemma_resolve_injective(pre, gr, p1, p2);
    lemma_window_chunk_in_window(pre, gr, p1);
    lemma_window_chunk_in_window(pre, gr, p2);
    let ci1 = pre.window_ci(gr, p1);
    let ai1 = window_ai(p1);
    let ci2 = pre.window_ci(gr, p2);
    let ai2 = window_ai(p2);
    assert(post.cell(ci1, ai1) == mid.cell(ci1, ai1));
    assert(post.cell(ci1, ai1).updated_at == tick);
    assert(post.cell(ci2, ai2).updated_at == tick);
    assert forall|cj: int, aj: int|
        pre.valid_cell(cj, aj) && #[trigger] post.cell(cj, aj) != pre.cell(cj, aj)
        implies post.cell(cj, aj).updated_at == tick by {
        if !(cj == ci1 && aj == ai1) && !(cj == ci2 && aj == ai2) {
            assert(mid.cell(cj, aj) == pre.cell(cj, aj));
            assert(post.cell(cj, aj) == mid.cell(cj, aj));
        }
    }
    assert forall|cj: int|
        0 <= cj < pre.chunks@.len() && (#[trigger] post.chunks@[cj]).active
            && !pre.chunks@[cj].active
        implies exists|aj: int|
            0 <= aj < CHUNK_LEN as int
            && (#[trigger] post.cell(cj, aj)).updated_at == tick by {
        assert(cj == ci1 || cj == ci2);
        if cj == ci1 {
            assert(0 <= ai1 < CHUNK_LEN as int && post.cell(cj, ai1).updated_at == tick);
        } else {
            assert(0 <= ai2 < CHUNK_LEN as int && post.cell(cj, ai2).updated_at == tick);
        }
    }
    assert forall|m: State| #[trigger] material_count(post, m) == material_count(pre, m) by {
        lemma_swap_conserves_mass(pre, mid, gr, p1, p2, tick, m);
        lemma_write_conserves_mass(mid, post, gr, p2, a, m);
    }
}

/// One powder step at window position `pos` of the group: accelerate,
/// fall straight down as far as the void run below allows, else try the
/// two lower diagonals in a random order, else rest. A powder atom with
/// void directly below never stays at its position.
#[verifier::rlimit(80)]
pub fn update_powder(grid: &mut Grid, group: &ChunkGroup, pos: Vec2i, tick: u64, rng: &mut fastrand::Rng)
    requires
        old(grid).wf(),
        group.wf(*old(grid)),
        old(grid).window_present(*group, pos),
        old(grid).window_atom(*group, pos).state == State::Powder,
        old(grid).window_atom(*group, pos).updated_at != tick,
    ensures
        final(grid).wf(),
        final(grid).same_config(*old(grid)),
        final(grid).dt == old(grid).dt,
        final(grid).tick_count == old(grid).tick_count,
        window_frame(*old(grid), *final(grid), *group),
        old(grid).updates@.is_prefix_of(final(grid).updates@),
        forall|m: State| #[trigger] material_count(*final(grid), m) == material_count(*old(grid), m),
        // with void below, the powder always leaves its cell
        void_at(*old(grid), *group, below(pos))
            ==> final(grid).window_atom(*group, pos).state == State::Void,
        // ... falling through a void run only, landing stamped, at most
        // the terminal velocity away, with the run above it untouched
        void_at(*old(grid), *group, below(pos))
            ==> exists|k: int|
                1 <= k <= old(grid).terminal_velocity as int
                && old(grid).window_present(*group, #[trigger] below_n(pos, k))
                && (forall|j: int| 1 <= j <= k
                    ==> void_at(*old(grid), *group, #[trigger] below_n(pos, j)))
                && final(grid).window_atom(*group, pos)
                    == old(grid).window_atom(*group, below_n(pos, k)).stamped(tick)
                && final(grid).window_atom(*group, below_n(pos, k)).state
                    == old(grid).window_atom(*group, pos).state
                && final(grid).window_atom(*group, below_n(pos, k)).velocity
                    == old(grid).window_atom(*group, pos).velocity
                && final(grid).window_atom(*group, below_n(pos, k)).updated_at == tick
                && final(grid).window_atom(*group, below_n(pos, k)).fall_velocity
                    <= old(grid).terminal_velocity,
        // blocked below with an open diagonal: the fall velocity is
        // cleared and the powder slides into one open diagonal
        (!void_at(*old(grid), *group, below(pos))
            && (diag_open(*old(grid), *group, pos, -1) || diag_open(*old(grid), *group, pos, 1)))
            ==> (final(grid).window_atom(*group, pos).state == State::Void
                && exists|dx: int|
                    (dx == -1 || dx == 1)
                    && #[trigger] diag_open(*old(grid), *group, pos, dx)
                    && final(grid).window_atom(*group, diag(pos, dx))
                        == old(grid).window_atom(*group, pos).with_fall_velocity(0).stamped(tick)
                    && final(grid).window_atom(*group, pos)
                        == old(grid).window_atom(*group, diag(pos, dx)).stamped(tick)),
        // blocked below, no open diagonal: rest in place, stamped, with
        // the fall velocity cleared
        (!void_at(*old(grid), *group, below(pos))
            && !diag_open(*old(grid), *group, pos, -1)
            && !diag_open(*old(grid), *group, pos, 1))
            ==> final(grid).window_atom(*group, pos)
                == old(grid).window_atom(*group, pos).with_fall_velocity(0).stamped(tick),
        // the examined cell never remains an unstamped powder
        final(grid).window_atom(*group, pos).state == State::Void
            || final(grid).window_atom(*group, pos).updated_at == tick,
        // every cell this call changes carries this tick's stamp
        forall|cj: int, aj: int|
            old(grid).valid_cell(cj, aj)
                && #[trigger] final(grid).cell(cj, aj) != old(grid).cell(cj, aj)
                ==> final(grid).cell(cj, aj).updated_at == tick,
        // a chunk this call wakes holds a cell it stamped
        forall|cj: int|
            0 <= cj < old(grid).chunks@.len()
                && (#[trigger] final(grid).chunks@[cj]).active
                && !old(grid).chunks@[cj].active
                ==> exists|aj: int|
                    0 <= aj < CHUNK_LEN as int
                    && (#[trigger] final(grid).cell(cj, aj)).updated_at == tick,
{
    let ghost pre = *grid;
    let grav = grid.gravity;
    let term = grid.terminal_velocity;
    let incr = rng_u8_between(rng, grav / 2 + grav % 2, grav);
    let cap = rng_u8_between(rng, term / 2 + term % 2, term);
    let fvel = get_fspeed(grid, group, pos);
    let sum16: u16 = fvel as u16 + incr as u16;
    let fvel_new: u8 = if sum16 > cap as u16 {
        cap
    } else {
        sum16 as u8
    };
    assert(fvel_new >= 1);

    let mut k: u8 = 0;
    let mut blocked = false;
    while k < fvel_new && !blocked
        invariant
            *grid == pre,
            pre.wf(),
            group.wf(pre),
            pre.window_present(*group, pos),
            k <= fvel_new,
            forall|j: int| 1 <= j <= k as int
                ==> pre.window_present(*group, #[trigger] below_n(pos, j))
                    && pre.window_atom(*group, below_n(pos, j)).state == State::Void,
            blocked ==> !(pre.window_present(*group, below_n(pos, k as int + 1))
                && pre.window_atom(*group, below_n(pos, k as int + 1)).state == State::Void),
        decreases fvel_new - k + (if blocked { 0int } else { 1int }),
    {
        let probe = Vec2i::new(pos.x, pos.y + k as i32 + 1);
        assert(probe == below_n(pos, k as int + 1));
        if is_void(grid, group, probe) {
            k += 1;
        } else {
            blocked = true;
        }
    }

    proof {
        assert(below(pos) == below_n(pos, 1));
    }
    if k > 0 {
        let dest = Vec2i::new(pos.x, pos.y + k as i32);
        proof {
            assert(dest == below_n(pos, k as int));
            lemma_window_chunk_in_window(pre, *group, pos);
            lemma_window_chunk_in_window(pre, *group, dest);
        }
        swap(grid, group, pos, dest, tick);
        let ghost mid = *grid;
        set_fspeed(grid, group, dest, fvel_new);
        proof {
            let a = mid.window_atom(*group, dest).with_fall_velocity(fvel_new);
            lemma_swap_then_write(pre, mid, *grid, *group, pos, dest, a, tick);
            assert(mid.window_atom(*group, dest)
                == pre.window_atom(*group, pos).stamped(tick));
            assert(grid.window_atom(*group, pos).state == State::Void);
            assert(1 <= k as int <= pre.terminal_velocity as int);
            assert(grid.window_atom(*group, below_n(pos, k as int))
                == pre.window_atom(*group, pos).stamped(tick).with_fall_velocity(fvel_new));
        }
        return;
    }

    // the very first cell down is blocked: the fall is over
    set_fspeed(grid, group, pos, 0);
    let ghost g1 = *grid;
    let ghost cleared = pre.window_atom(*group, pos).with_fall_velocity(0);
    proof {
        lemma_write_window_frame(pre, *grid, *group, pos, cleared);
        lemma_write_preserves_other(pre, g1, *group, pos, cleared, diag(pos, -1));
        lemma_write_preserves_other(pre, g1, *group, pos, cleared, beside(pos, -1));
        lemma_write_preserves_other(pre, g1, *group, pos, cleared, diag(pos, 1));
        lemma_write_preserves_other(pre, g1, *group, pos, cleared, beside(pos, 1));
    }

    let pdl = Vec2i::new(pos.x - 1, pos.y + 1);
    let psl = Vec2i::new(pos.x - 1, pos.y);
    let pdr = Vec2i::new(pos.x + 1, pos.y + 1);
    let psr = Vec2i::new(pos.x + 1, pos.y);
    let dl = is_void(grid, group, pdl) && is_void(grid, group, psl);
    let dr = is_void(grid, group, pdr) && is_void(grid, group, psr);
    proof {
        assert(pdl == diag(pos, -1) && psl == beside(pos, -1)
            && pdr == diag(pos, 1) && psr == beside(pos, 1));
        assert(dl == diag_open(pre, *group, pos, -1));
        assert(dr == diag_open(pre, *group, pos, 1));
    }
    let coin = rng_bool(rng);
    let first_dx: i32 = if coin { -1 } else { 1 };
    let first_ok = if coin { dl } else { dr };
    let second_dx: i32 = if coin { 1 } else { -1 };
    let second_ok = if coin { dr } else { dl };

    if first_ok {
        let dest = Vec2i::new(pos.x + first_dx, pos.y + 1);
        proof {
            assert(dest == diag(pos, first_dx as int));
        }
        swap(grid, group, pos, dest, tick);
        proof {
            lemma_write_then_swap(pre, g1, *grid, *group, pos, dest, cleared, tick);
            assert(diag_open(pre, *group, pos, first_dx as int));
            assert(grid.window_atom(*group, pos).state == State::Void);
        }
        return;
    }
    if second_ok {
        let dest = Vec2i::new(pos.x + second_dx, pos.y + 1);
        proof {
            assert(dest == diag(pos, second_dx as int));
        }
        swap(grid, group, pos, dest, tick);
        proof {
            lemma_write_then_swap(pre, g1, *grid, *group, pos, dest, cleared, tick);
            assert(diag_open(pre, *group, pos, second_dx as int));
            assert(grid.window_atom(*group, pos).state == State::Void);
        }
        return;
    }

    stamp_atom(grid, group, pos, tick);
    proof {
        lemma_write_window_frame(g1, *grid, *group, pos,
            g1.window_atom(*group, pos).stamped(tick));
        lemma_window_frame_trans(pre, g1, *grid, *group);
        assert forall|m: State| #[trigger] material_count(*grid, m) == material_count(pre, m) by {
            lemma_write_conserves_mass(pre, g1, *group, pos, cleared, m);
            lemma_write_conserves_mass(g1, *grid, *group, pos,
                g1.window_atom(*group, pos).stamped(tick), m);
        }
        assert(grid.window_atom(*group, pos) == cleared.stamped(tick));
        let ci1 = pre.window_ci(*group, pos);
        let ai1 = window_ai(pos);
        lemma_window_chunk_in_window(pre, *group, pos);
        assert(grid.cell(ci1, ai1).updated_at == tick);
        assert forall|cj: int, aj: int|
            pre.valid_cell(cj, aj) && #[trigger] grid.cell(cj, aj) != pre.cell(cj, aj)
            implies grid.cell(cj, aj).updated_at == tick by {
            if !(cj == ci1 && aj == ai1) {
                assert(g1.cell(cj, aj) == pre.cell(cj, aj));
                assert(grid.cell(cj, aj) == g1.cell(cj, aj));
            }
        }
        assert forall|cj: int|
            0 <= cj < pre.chunks@.len() && (#[trigger] grid.chunks@[cj]).active
                && !pre.chunks@[cj].active
            implies exists|aj: int|
                0 <= aj < CHUNK_LEN as int
                && (#[trigger] grid.cell(cj, aj)).updated_at == tick by {
            assert(grid.chunks@[cj].active == pre.chunks@[cj].active);
        }
    }
}

/// One liquid step at window position `pos` of the group: one cell straight
/// down if void, else a random-order try of the two lower diagonals (each
/// gated by its open side), else a random-order try of the two sides, else
/// rest. With void directly below, the liquid moves exactly one cell down.
pub fn update_liquid(grid: &mut Grid, group: &ChunkGroup, pos: Vec2i, tick: u64, rng: &mut fastrand::Rng)
    requires
        old(grid).wf(),
        group.wf(*old(grid)),
        old(grid).window_present(*group, pos),
        old(grid).window_atom(*group, pos).state == State::Liquid,
        old(grid).window_atom(*group, pos).updated_at != tick,
    ensures
        final(grid).wf(),
        final(grid).same_config(*old(grid)),
        final(grid).dt == old(grid).dt,
        final(grid).tick_count == old(grid).tick_count,
        window_frame(*old(grid), *final(grid), *group),
        old(grid).updates@.is_prefix_of(final(grid).updates@),
        forall|m: State| #[trigger] material_count(*final(grid), m) == material_count(*old(grid), m),
        // straight down into void: an exact one-cell exchange
        void_at(*old(grid), *group, below(pos))
            ==> (final(grid).window_atom(*group, pos)
                    == old(grid).window_atom(*group, below(pos)).stamped(tick)
                && final(grid).window_atom(*group, below(pos))
                    == old(grid).window_atom(*group, pos).stamped(tick)),
        // else one open diagonal, gated by its side, chosen at random
        (!void_at(*old(grid), *group, below(pos))
            && (diag_open(*old(grid), *group, pos, -1) || diag_open(*old(grid), *group, pos, 1)))
            ==> exists|dx: int|
                (dx == -1 || dx == 1)
                && #[trigger] diag_open(*old(grid), *group, pos, dx)
                && final(grid).window_atom(*group, diag(pos, dx))
                    == old(grid).window_atom(*group, pos).stamped(tick)
                && final(grid).window_atom(*group, pos)
                    == old(grid).window_atom(*group, diag(pos, dx)).stamped(tick),
        // else lateral spread into one void side, chosen at random
        (!void_at(*old(grid), *group, below(pos))
            && !diag_open(*old(grid), *group, pos, -1)
            && !diag_open(*old(grid), *group, pos, 1)
            && (void_at(*old(grid), *group, beside(pos, -1))
                || void_at(*old(grid), *group, beside(pos, 1))))
            ==> exists|dx: int|
                (dx == -1 || dx == 1)
                && #[trigger] void_at(*old(grid), *group, beside(pos, dx))
                && final(grid).window_atom(*group, beside(pos, dx))
                    == old(grid).window_atom(*group, pos).stamped(tick)
                && final(grid).window_atom(*group, pos)
                    == old(grid).window_atom(*group, beside(pos, dx)).stamped(tick),
        // else rest in place, stamped
        (!void_at(*old(grid), *group, below(pos))
            && !diag_open(*old(grid), *group, pos, -1)
            && !diag_open(*old(grid), *group, pos, 1)
            && !void_at(*old(grid), *group, beside(pos, -1))
            && !void_at(*old(grid), *group, beside(pos, 1)))
            ==> final(grid).window_atom(*group, pos)
                == old(grid).window_atom(*group, pos).stamped(tick),
        // the examined cell never remains an unstamped liquid
        final(grid).window_atom(*group, pos).state == State::Void
            || final(grid).window_atom(*group, pos).updated_at == tick,
        // every cell this call changes carries this tick's stamp
        forall|cj: int, aj: int|
            old(grid).valid_cell(cj, aj)
                && #[trigger] final(grid).cell(cj, aj) != old(grid).cell(cj, aj)
                ==> final(grid).cell(cj, aj).updated_at == tick,
        // a chunk this call wakes holds a cell it stamped
        forall|cj: int|
            0 <= cj < old(grid).chunks@.len()
                && (#[trigger] final(grid).chunks@[cj]).active
                && !old(grid).chunks@[cj].active
                ==> exists|aj: int|
                    0 <= aj < CHUNK_LEN as int
                    && (#[trigger] final(grid).cell(cj, aj)).updated_at == tick,
{
    let ghost pre = *grid;
    let down = Vec2i::new(pos.x, pos.y + 1);
    proof {
        assert(down == below(pos));
    }
    if is_void(grid, group, down) {
        swap(grid, group, pos, down, tick);
        proof {
            lemma_swap_step(pre, *grid, *group, pos, down, tick);
        }
        return;
    }

    let psl = Vec2i::new(pos.x - 1, pos.y);
    let psr = Vec2i::new(pos.x + 1, pos.y);
    let pdl = Vec2i::new(pos.x - 1, pos.y + 1);
    let pdr = Vec2i::new(pos.x + 1, pos.y + 1);
    let l_ok = is_void(grid, group, psl);
    let r_ok = is_void(grid, group, psr);
    let dl_ok = is_void(grid, group, pdl);
    let dr_ok = is_void(grid, group, pdr);
    proof {
        assert(psl == beside(pos, -1) && psr == beside(pos, 1)
            && pdl == diag(pos, -1) && pdr == diag(pos, 1));
    }

    let coin = rng_bool(rng);
    let first_dx: i32 = if coin { -1 } else { 1 };
    let first_ok = if coin { dl_ok && l_ok } else { dr_ok && r_ok };
    let second_dx: i32 = if coin { 1 } else { -1 };
    let second_ok = if coin { dr_ok && r_ok } else { dl_ok && l_ok };

    if first_ok {
        let dest = Vec2i::new(pos.x + first_dx, pos.y + 1);
        proof {
            assert(dest == diag(pos, first_dx as int));
        }
        swap(grid, group, pos, dest, tick);
        proof {
            lemma_swap_step(pre, *grid, *group, pos, dest, tick);
            assert(diag_open(pre, *group, pos, first_dx as int));
        }
        return;
    }
    if second_ok {
        let dest = Vec2i::new(pos.x + second_dx, pos.y + 1);
        proof {
            assert(dest == diag(pos, second_dx as int));
        }
        swap(grid, group, pos, dest, tick);
        proof {
            lemma_swap_step(pre, *grid, *group, pos, dest, tick);
            assert(diag_open(pre, *group, pos, second_dx as int));
        }
        return;
    }

    let coin2 = rng_bool(rng);
    let side_dx: i32 = if coin2 { -1 } else { 1 };
    let side_ok = if coin2 { l_ok } else { r_ok };
    let other_dx: i32 = if coin2 { 1 } else { -1 };
    let other_ok = if coin2 { r_ok } else { l_ok };
    if side_ok {
        let dest = Vec2i::new(pos.x + side_dx, pos.y);
        proof {
            assert(dest == beside(pos, side_dx as int));
        }
        swap(grid, group, pos, dest, tick);
        proof {
            lemma_swap_step(pre, *grid, *group, pos, dest, tick);
            assert(void_at(pre, *group, beside(pos, side_dx as int)));
        }
        return;
    }
    if other_ok {
        let dest = Vec2i::new(pos.x + other_dx, pos.y);
        proof {
            assert(dest == beside(pos, other_dx as int));
        }
        swap(grid, group, pos, dest, tick);
        proof {
            lemma_swap_step(pre, *grid, *group, pos, dest, tick);
            assert(void_at(pre, *group, beside(pos, other_dx as int)));
        }
        return;
    }

    stamp_atom(grid, group, pos, tick);
    proof {
        lemma_write_window_frame(pre, *grid, *group, pos,
            pre.window_atom(*group, pos).stamped(tick));
        assert forall|m: State| #[trigger] material_count(*grid, m) == material_count(pre, m) by {
            lemma_write_conserves_mass(pre, *grid, *group, pos,
                pre.window_atom(*group, pos).stamped(tick), m);
        }
        let ci1 = pre.window_ci(*group, pos);
        let ai1 = window_ai(pos);
        lemma_window_chunk_in_window(pre, *group, pos);
        assert(grid.cell(ci1, ai1).updated_at == tick);
        assert forall|cj: int, aj: int|
            pre.valid_cell(cj, aj) && #[trigger] grid.cell(cj, aj) != pre.cell(cj, aj)
            implies grid.cell(cj, aj).updated_at == tick by {
            if !(cj == ci1 && aj == ai1) {
                assert(grid.cell(cj, aj) == pre.cell(cj, aj));
            }
        }
        assert forall|cj: int|
            0 <= cj < pre.chunks@.len() && (#[trigger] grid.chunks@[cj]).active
                && !pre.chunks@[cj].active
            implies exists|aj: int|
                0 <= aj < CHUNK_LEN as int
                && (#[trigger] grid.cell(cj, aj)).updated_at == tick by {
            assert(grid.chunks@[cj].active == pre.chunks@[cj].active);
        }
    }
}

/// Every position of the center chunk exists in the window.
pub proof fn lemma_center_present(g: Grid, gr: ChunkGroup, p: Vec2i)
    requires
        g.wf(),
        gr.wf(g),
        64 <= p.x < 128,
        64 <= p.y < 128,
    ensures
        g.window_present(gr, p),
{
    assert(p.x as int / CHUNK_LENGTH as int == 1);
    assert(p.y as int / CHUNK_LENGTH as int == 1);
}

/// Whether the center-chunk cell at window coordinates `(px, py)` holds no
/// unstamped movable material: any powder or liquid there carries this
/// tick's stamp, so no rule selects it again this tick.
pub open spec fn cell_settled(g: Grid, gr: ChunkGroup, px: int, py: int, tick: u64) -> bool {
    let p = Vec2i { x: px as i32, y: py as i32 };
    (g.window_atom(gr, p).state == State::Powder || g.window_atom(gr, p).state == State::Liquid)
        ==> g.window_atom(gr, p).updated_at == tick
}

/// One full pass over the active center chunk of the group: every cell of
/// the center chunk, rows and columns in a random order, skipping cells
/// already moved this tick, dispatching by material. Afterwards no powder
/// or liquid cell of the center chunk lacks this tick's stamp.
#[verifier::rlimit(60)]
pub fn update_chunks(grid: &mut Grid, group: &ChunkGroup, tick: u64, rng: &mut fastrand::Rng)
    requires
        old(grid).wf(),
        group.wf(*old(grid)),
    ensures
        final(grid).wf(),
        final(grid).same_config(*old(grid)),
        final(grid).dt == old(grid).dt,
        final(grid).tick_count == old(grid).tick_count,
        window_frame(*old(grid), *final(grid), *group),
        old(grid).updates@.is_prefix_of(final(grid).updates@),
        forall|m: State| #[trigger] material_count(*final(grid), m) == material_count(*old(grid), m),
        forall|px: int, py: int|
            64 <= px < 128 && 64 <= py < 128
                ==> #[trigger] cell_settled(*final(grid), *group, px, py, tick),
        forall|cj: int, aj: int|
            old(grid).valid_cell(cj, aj)
                && #[trigger] final(grid).cell(cj, aj) != old(grid).cell(cj, aj)
                ==> final(grid).cell(cj, aj).updated_at == tick,
        forall|cj: int|
            0 <= cj < old(grid).chunks@.len()
                && (#[trigger] final(grid).chunks@[cj]).active
                && !old(grid).chunks@[cj].active
                ==> exists|aj: int|
                    0 <= aj < CHUNK_LEN as int
                    && (#[trigger] final(grid).cell(cj, aj)).updated_at == tick,
{
    let ghost pre = *grid;
    let lo = CHUNK_LENGTH;
    let hi = 2 * CHUNK_LENGTH;
    let ys = rand_range(lo, hi, rng);
    let mut yi: usize = 0;
    while yi < ys.len()
        invariant
            pre.wf(),
            group.wf(pre),
            grid.wf(),
            grid.same_config(pre),
            grid.dt == pre.dt,
            grid.tick_count == pre.tick_count,
            window_frame(pre, *grid, *group),
            pre.updates@.is_prefix_of(grid.updates@),
            forall|m: State| #[trigger] material_count(*grid, m) == material_count(pre, m),
            yi <= ys.len(),
            lo == CHUNK_LENGTH,
            hi == 2 * CHUNK_LENGTH,
            forall|i: int| 0 <= i < ys@.len() ==> 64 <= #[trigger] ys@[i] < 128,
            forall|cj: int, aj: int|
                pre.valid_cell(cj, aj) && #[trigger] grid.cell(cj, aj) != pre.cell(cj, aj)
                    ==> grid.cell(cj, aj).updated_at == tick,
            forall|cj: int|
                0 <= cj < pre.chunks@.len() && (#[trigger] grid.chunks@[cj]).active
                    && !pre.chunks@[cj].active
                    ==> exists|aj: int|
                        0 <= aj < CHUNK_LEN as int
                        && (#[trigger] grid.cell(cj, aj)).updated_at == tick,
            forall|qx: int, qy: int|
                64 <= qx < 128 && 64 <= qy < 128
                    && (exists|i: int| 0 <= i < yi && #[trigger] ys@[i] as int == qy)
                    ==> #[trigger] cell_settled(*grid, *group, qx, qy, tick),
        decreases ys.len() - yi,
    {
        let yv = ys[yi];
        let xs = rand_range(lo, hi, rng);
        let mut xi: usize = 0;
        while xi < xs.len()
            invariant
                pre.wf(),
                group.wf(pre),
                grid.wf(),
                grid.same_config(pre),
                grid.dt == pre.dt,
                grid.tick_count == pre.tick_count,
                window_frame(pre, *grid, *group),
                pre.updates@.is_prefix_of(grid.updates@),
                forall|m: State| #[trigger] material_count(*grid, m) == material_count(pre, m),
                yi < ys.len(),
                xi <= xs.len(),
                yv == ys@[yi as int],
                64 <= yv < 128,
                forall|i: int| 0 <= i < ys@.len() ==> 64 <= #[trigger] ys@[i] < 128,
                forall|i: int| 0 <= i < xs@.len() ==> 64 <= #[trigger] xs@[i] < 128,
                forall|cj: int, aj: int|
                    pre.valid_cell(cj, aj) && #[trigger] grid.cell(cj, aj) != pre.cell(cj, aj)
                        ==> grid.cell(cj, aj).updated_at == tick,
                forall|cj: int|
                    0 <= cj < pre.chunks@.len() && (#[trigger] grid.chunks@[cj]).active
                        && !pre.chunks@[cj].active
                        ==> exists|aj: int|
                            0 <= aj < CHUNK_LEN as int
                            && (#[trigger] grid.cell(cj, aj)).updated_at == tick,
                forall|qx: int, qy: int|
                    64 <= qx < 128 && 64 <= qy < 128
                        && (exists|i: int| 0 <= i < yi && #[trigger] ys@[i] as int == qy)
                        ==> #[trigger] cell_settled(*grid, *group, qx, qy, tick),
                forall|qx: int|
                    64 <= qx < 128
                        && (exists|j: int| 0 <= j < xi && #[trigger] xs@[j] as int == qx)
                        ==> #[trigger] cell_settled(*grid, *group, qx, yv as int, tick),
            decreases xs.len() - xi,
        {
            let xv = xs[xi];
            let pos = Vec2i::new(xv as i32, yv as i32);
            let ghost before = *grid;
            let examined = dt_updatable(grid, group, pos, tick);
            let mut st: Option<State> = None;
            if examined {
                st = get_state(grid, group, pos);
                match st {
                    Some(State::Powder) => {
                        update_powder(grid, group, pos, tick, rng);
                        proof {
                            lemma_window_frame_trans(pre, before, *grid, *group);
                            lemma_prefix_trans(pre.updates@, before.updates@, grid.updates@);
                        }
                    },
                    Some(State::Liquid) => {
                        update_liquid(grid, group, pos, tick, rng);
                        proof {
                            lemma_window_frame_trans(pre, before, *grid, *group);
                            lemma_prefix_trans(pre.updates@, before.updates@, grid.updates@);
                        }
                    },
                    _ => {},
                }
            }
            proof {
                lemma_center_present(before, *group, pos);
                // the visited cell is settled now: it was skipped because
                // it is stamped, holds no movable material, or a rule left
                // it void or stamped
                assert(cell_settled(*grid, *group, xv as int, yv as int, tick)) by {
                    if examined {
                        if st == Some(State::Powder) || st == Some(State::Liquid) {
                        } else {
                            assert(*grid == before);
                        }
                    } else {
                        assert(*grid == before);
                    }
                }
                // whatever this step changed, it stamped
                assert forall|cj: int, aj: int|
                    before.valid_cell(cj, aj) && #[trigger] grid.cell(cj, aj) != before.cell(cj, aj)
                    implies grid.cell(cj, aj).updated_at == tick by {}
                // cells settled before this step stay settled
                assert forall|qx: int, qy: int|
                    64 <= qx < 128 && 64 <= qy < 128
                        && cell_settled(before, *group, qx, qy, tick)
                    implies cell_settled(*grid, *group, qx, qy, tick) by {
                    let q = Vec2i { x: qx as i32, y: qy as i32 };
                    lemma_center_present(before, *group, q);
                    lemma_window_chunk_in_window(before, *group, q);
                }
                // compose the stamp and wake bookkeeping with the history
                assert forall|cj: int, aj: int|
                    pre.valid_cell(cj, aj) && #[trigger] grid.cell(cj, aj) != pre.cell(cj, aj)
                    implies grid.cell(cj, aj).updated_at == tick by {
                    if grid.cell(cj, aj) == before.cell(cj, aj) {
                        assert(before.cell(cj, aj) != pre.cell(cj, aj));
                    }
                }
                assert forall|cj: int|
                    0 <= cj < pre.chunks@.len() && (#[trigger] grid.chunks@[cj]).active
                        && !pre.chunks@[cj].active
                    implies exists|aj: int|
                        0 <= aj < CHUNK_LEN as int
                        && (#[trigger] grid.cell(cj, aj)).updated_at == tick by {
                    if before.chunks@[cj].active {
                        let aj = choose|aj: int|
                            0 <= aj < CHUNK_LEN as int
                            && (#[trigger] before.cell(cj, aj)).updated_at == tick;
                        assert(before.valid_cell(cj, aj));
                        assert(grid.cell(cj, aj).updated_at == tick);
                    }
                }
                // rows settled earlier remain settled
                assert forall|qx: int, qy: int|
                    64 <= qx < 128 && 64 <= qy < 128
                        && (exists|i: int| 0 <= i < yi && #[trigger] ys@[i] as int == qy)
                    implies cell_settled(*grid, *group, qx, qy, tick) by {
                    assert(cell_settled(before, *group, qx, qy, tick));
                }
                // the visited column joins the settled set
                assert forall|qx: int|
                    64 <= qx < 128
                        && (exists|j: int| 0 <= j < xi + 1 && #[trigger] xs@[j] as int == qx)
                    implies cell_settled(*grid, *group, qx, yv as int, tick) by {
                    let j = choose|j: int| 0 <= j < xi + 1 && xs@[j] as int == qx;
                    if j == xi {
                        assert(qx == xv as int);
                    } else {
                        assert(cell_settled(before, *group, qx, yv as int, tick));
                    }
                }
            }
            xi += 1;
        }
        proof {
            // the whole row is settled: the shuffled columns cover 64..128
            assert forall|qx: int, qy: int|
                64 <= qx < 128 && 64 <= qy < 128
                    && (exists|i: int| 0 <= i < yi + 1 && #[trigger] ys@[i] as int == qy)
                implies cell_settled(*grid, *group, qx, qy, tick) by {
                let i = choose|i: int| 0 <= i < yi + 1 && ys@[i] as int == qy;
                if i == yi {
                    assert(xs@.contains(qx as usize));
                    let j = choose|j: int| 0 <= j < xs@.len() && xs@[j] == qx as usize;
                    assert(xs@[j] as int == qx);
                }
            }
        }
        yi += 1;
    }
    proof {
        // every center cell is settled: the shuffled rows cover 64..128
        assert forall|px: int, py: int| 64 <= px < 128 && 64 <= py < 128
            implies cell_settled(*grid, *group, px, py, tick) by {
            assert(ys@.contains(py as usize));
            let i = choose|i: int| 0 <= i < ys@.len() && ys@[i] == py as usize;
            assert(ys@[i] as int == py);
        }
    }
}

} // verus!
