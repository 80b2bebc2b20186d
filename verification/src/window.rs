use vstd::prelude::*;
use crate::atom::{Atom, State, Vec2i};
use crate::coords::{g2l_local_spec, in_window_range};
use crate::grid::{lemma_resolve_injective, resolve, window_ai, ChunkGroup, Grid};
use crate::render::DeferredUpdate;
use crate::rng::{rng_bool, rng_u8_between};

verus! {

/// Sum of a window position and an offset.
pub open spec fn vadd(p: Vec2i, o: Vec2i) -> Vec2i {
    Vec2i { x: (p.x as int + o.x as int) as i32, y: (p.y as int + o.y as int) as i32 }
}

/// Whether `p` falls on an existing cell that holds void.
pub open spec fn void_at(g: Grid, gr: ChunkGroup, p: Vec2i) -> bool {
    &&& g.window_present(gr, p)
    &&& g.window_atom(gr, p).state == State::Void
}

/// Effect of writing atom `a` at window position `p`: exactly that cell
/// changes, and nothing else of the grid.
pub open spec fn cell_write_effect(pre: Grid, post: Grid, g: ChunkGroup, p: Vec2i, a: Atom) -> bool {
    &&& post.same_config(pre)
    &&& post.dt == pre.dt
    &&& post.tick_count == pre.tick_count
    &&& post.chunks@.len() == pre.chunks@.len()
    &&& post.window_atom(g, p) == a
    &&& forall|cj: int, aj: int|
        pre.valid_cell(cj, aj) && !(cj == pre.window_ci(g, p) && aj == window_ai(p))
            ==> #[trigger] post.cell(cj, aj) == pre.cell(cj, aj)
    &&& forall|cj: int|
        0 <= cj < pre.chunks@.len()
            ==> #[trigger] post.chunks@[cj].active == pre.chunks@[cj].active
    &&& post.updates@ == pre.updates@
}

/// Reads the atom at a window position; `None` when the position lies
/// outside the window or on a missing border chunk — never a fault.
pub fn get_global(grid: &Grid, group: &ChunkGroup, pos: Vec2i) -> (r: Option<Atom>)
    requires
        grid.wf(),
        group.wf(*grid),
    ensures
        grid.window_present(*group, pos) ==> r == Some(grid.window_atom(*group, pos)),
        !grid.window_present(*group, pos) ==> r is None,
{
    match resolve(grid, group, pos) {
        Some(p) => Some(grid.chunks[p.0].atoms[p.1]),
        None => None,
    }
}

/// Reads only the material state at a window position.
pub fn get_state(grid: &Grid, group: &ChunkGroup, pos: Vec2i) -> (r: Option<State>)
    requires
        grid.wf(),
        group.wf(*grid),
    ensures
        grid.window_present(*group, pos) ==> r == Some(grid.window_atom(*group, pos).state),
        !grid.window_present(*group, pos) ==> r is None,
{
    match resolve(grid, group, pos) {
        Some(p) => Some(grid.chunks[p.0].atoms[p.1].state),
        None => None,
    }
}

/// Whether the cell at `pos` holds void.
pub fn is_void(grid: &Grid, group: &ChunkGroup, pos: Vec2i) -> (r: bool)
    requires
        grid.wf(),
        group.wf(*grid),
    ensures
        r <==> (grid.window_present(*group, pos) && grid.window_atom(*group, pos).state == State::Void),
{
    match get_state(grid, group, pos) {
        Some(s) => s == State::Void,
        None => false,
    }
}

/// Whether the atom at `pos` may still be examined this tick: present, and
/// either not yet moved this tick or void.
pub fn dt_updatable(grid: &Grid, group: &ChunkGroup, pos: Vec2i, tick: u64) -> (r: bool)
    requires
        grid.wf(),
        group.wf(*grid),
    ensures
        r <==> (grid.window_present(*group, pos)
            && (grid.window_atom(*group, pos).updated_at != tick
                || grid.window_atom(*group, pos).state == State::Void)),
{
    match get_global(grid, group, pos) {
        Some(atom) => atom.updated_at != tick || atom.state == State::Void,
        None => false,
    }
}

/// An atom that a mover could displace this tick: listed as displaceable
/// and not yet moved this tick.
pub open spec fn displaceable(atom: Atom, states: Seq<(State, u8)>, tick: u64) -> bool {
    &&& atom.updated_at != tick
    &&& exists|i: int|
        0 <= i < states.len() && (#[trigger] states[i]).0 == atom.state && states[i].1 > 0
}

/// What a destination test may report: a taken destination is present and
/// is void or displaceable; a present void destination is always taken.
pub open spec fn can_take(
    g: Grid,
    gr: ChunkGroup,
    p: Vec2i,
    states: Seq<(State, u8)>,
    tick: u64,
    r: bool,
) -> bool {
    &&& (r ==> g.window_present(gr, p))
    &&& (r ==> (g.window_atom(gr, p).state == State::Void
        || displaceable(g.window_atom(gr, p), states, tick)))
    &&& ((g.window_present(gr, p) && g.window_atom(gr, p).state == State::Void) ==> r)
    &&& ((g.window_present(gr, p)
        && g.window_atom(gr, p).updated_at != tick
        && exists|i: int|
            0 <= i < states.len()
            && (#[trigger] states[i]).0 == g.window_atom(gr, p).state
            && states[i].1 >= 100) ==> r)
}

/// Whether `pos` is a legal swap destination: void, or holding a material
/// from `states` (with its displacement probability in percent) that has
/// not moved this tick — then taken with that probability.
pub fn swapable(
    grid: &Grid,
    group: &ChunkGroup,
    pos: Vec2i,
    states: &[(State, u8)],
    tick: u64,
    rng: &mut fastrand::Rng,
) -> (r: bool)
    requires
        grid.wf(),
        group.wf(*grid),
    ensures
        can_take(*grid, *group, pos, states@, tick, r),
{
    match get_global(grid, group, pos) {
        None => false,
        Some(atom) => {
            if atom.state == State::Void {
                return true;
            }
            if atom.updated_at == tick {
                return false;
            }
            let mut i: usize = 0;
            while i < states.len()
                invariant
                    i <= states.len(),
                    grid.wf(),
                    group.wf(*grid),
                    grid.window_present(*group, pos),
                    atom == grid.window_atom(*group, pos),
                    atom.updated_at != tick,
                    forall|j: int| 0 <= j < i
                        ==> !((#[trigger] states@[j]).0 == atom.state && states@[j].1 >= 100),
                decreases states.len() - i,
            {
                let (s, prob) = states[i];
                if s == atom.state {
                    let draw = rng_u8_between(rng, 0, 99);
                    if draw < prob {
                        proof {
                            assert(states@[i as int].0 == atom.state);
                            assert(states@[i as int].1 > 0);
                        }
                        return true;
                    }
                }
                i += 1;
            }
            false
        },
    }
}

/// The three downward destinations from `pos` — straight down first, then
/// the two diagonals in a random order — each tested with [`swapable`].
pub fn down_neigh(
    grid: &Grid,
    group: &ChunkGroup,
    pos: Vec2i,
    states: &[(State, u8)],
    tick: u64,
    rng: &mut fastrand::Rng,
) -> (r: [(bool, Vec2i); 3])
    requires
        grid.wf(),
        group.wf(*grid),
        in_window_range(pos),
    ensures
        r@[0].1 == (Vec2i { x: 0, y: 1 }),
        can_take(*grid, *group, vadd(pos, r@[0].1), states@, tick, r@[0].0),
        (r@[1].1 == (Vec2i { x: -1i32, y: 1 }) && r@[2].1 == (Vec2i { x: 1, y: 1 }))
            || (r@[1].1 == (Vec2i { x: 1, y: 1 }) && r@[2].1 == (Vec2i { x: -1i32, y: 1 })),
        can_take(*grid, *group, vadd(pos, r@[1].1), states@, tick, r@[1].0),
        can_take(*grid, *group, vadd(pos, r@[2].1), states@, tick, r@[2].0),
{
    let down = (
        swapable(grid, group, Vec2i::new(pos.x, pos.y + 1), states, tick, rng),
        Vec2i::new(0, 1),
    );
    let dl = (
        swapable(grid, group, Vec2i::new(pos.x - 1, pos.y + 1), states, tick, rng),
        Vec2i::new(-1, 1),
    );
    let dr = (
        swapable(grid, group, Vec2i::new(pos.x + 1, pos.y + 1), states, tick, rng),
        Vec2i::new(1, 1),
    );
    if rng_bool(rng) {
        [down, dr, dl]
    } else {
        [down, dl, dr]
    }
}

/// The two lateral destinations from `pos`, in a random order, each tested
/// with [`swapable`].
pub fn side_neigh(
    grid: &Grid,
    group: &ChunkGroup,
    pos: Vec2i,
    states: &[(State, u8)],
    tick: u64,
    rng: &mut fastrand::Rng,
) -> (r: [(bool, Vec2i); 2])
    requires
        grid.wf(),
        group.wf(*grid),
        in_window_range(pos),
    ensures
        (r@[0].1 == (Vec2i { x: -1i32, y: 0 }) && r@[1].1 == (Vec2i { x: 1, y: 0 }))
            || (r@[0].1 == (Vec2i { x: 1, y: 0 }) && r@[1].1 == (Vec2i { x: -1i32, y: 0 })),
        can_take(*grid, *group, vadd(pos, r@[0].1), states@, tick, r@[0].0),
        can_take(*grid, *group, vadd(pos, r@[1].1), states@, tick, r@[1].0),
{
    let left = (
        swapable(grid, group, Vec2i::new(pos.x - 1, pos.y), states, tick, rng),
        Vec2i::new(-1, 0),
    );
    let right = (
        swapable(grid, group, Vec2i::new(pos.x + 1, pos.y), states, tick, rng),
        Vec2i::new(1, 0),
    );
    if rng_bool(rng) {
        [right, left]
    } else {
        [left, right]
    }
}

/// Lateral velocity of the atom at a window position.
pub fn get_vel(grid: &Grid, group: &ChunkGroup, pos: Vec2i) -> (r: Option<Vec2i>)
    requires
        grid.wf(),
        group.wf(*grid),
        grid.window_present(*group, pos),
    ensures
        r == grid.window_atom(*group, pos).velocity,
{
    let p = resolve(grid, group, pos).unwrap();
    grid.chunks[p.0].atoms[p.1].velocity
}

/// Writes the lateral velocity of the atom at a window position; a zero
/// vector is stored canonically as `None`.
pub fn set_vel(grid: &mut Grid, group: &ChunkGroup, pos: Vec2i, velocity: Vec2i)
    requires
        old(grid).wf(),
        group.wf(*old(grid)),
        old(grid).window_present(*group, pos),
    ensures
        final(grid).wf(),
        cell_write_effect(
            *old(grid),
            *final(grid),
            *group,
            pos,
            old(grid).window_atom(*group, pos).with_velocity(
                if velocity == (Vec2i { x: 0, y: 0 }) { None } else { Some(velocity) },
            ),
        ),
{
    let p = resolve(grid, group, pos).unwrap();
    let mut a = grid.chunks[p.0].atoms[p.1];
    a.velocity = if velocity.x == 0 && velocity.y == 0 {
        None
    } else {
        Some(velocity)
    };
    grid.chunks[p.0].atoms[p.1] = a;
}

/// Fall velocity of the atom at a window position.
pub fn get_fspeed(grid: &Grid, group: &ChunkGroup, pos: Vec2i) -> (r: u8)
    requires
        grid.wf(),
        group.wf(*grid),
        grid.window_present(*group, pos),
    ensures
        r == grid.window_atom(*group, pos).fall_velocity,
{
    let p = resolve(grid, group, pos).unwrap();
    grid.chunks[p.0].atoms[p.1].fall_velocity
}

/// Writes the fall velocity of the atom at a window position.
pub fn set_fspeed(grid: &mut Grid, group: &ChunkGroup, pos: Vec2i, fall_speed: u8)
    requires
        old(grid).wf(),
        group.wf(*old(grid)),
        old(grid).window_present(*group, pos),
    ensures
        final(grid).wf(),
        cell_write_effect(
            *old(grid),
            *final(grid),
            *group,
            pos,
            old(grid).window_atom(*group, pos).with_fall_velocity(fall_speed),
        ),
{
    let p = resolve(grid, group, pos).unwrap();
    let mut a = grid.chunks[p.0].atoms[p.1];
    a.fall_velocity = fall_speed;
    grid.chunks[p.0].atoms[p.1] = a;
}

/// Stamps the atom at a window position as processed this tick, without
/// moving it.
pub fn stamp_atom(grid: &mut Grid, group: &ChunkGroup, pos: Vec2i, tick: u64)
    requires
        old(grid).wf(),
        group.wf(*old(grid)),
        old(grid).window_present(*group, pos),
    ensures
        final(grid).wf(),
        cell_write_effect(
            *old(grid),
            *final(grid),
            *group,
            pos,
            old(grid).window_atom(*group, pos).stamped(tick),
        ),
{
    let p = resolve(grid, group, pos).unwrap();
    let mut a = grid.chunks[p.0].atoms[p.1];
    a.updated_at = tick;
    grid.chunks[p.0].atoms[p.1] = a;
}

/// Effect of the swap primitive: the two cells exchange their full atoms
/// and both get this tick's stamp; both touched chunks are woken; both
/// positions are recorded for the render collaborator; nothing else of the
/// grid changes.
pub open spec fn swap_effect(
    pre: Grid,
    post: Grid,
    g: ChunkGroup,
    p1: Vec2i,
    p2: Vec2i,
    tick: u64,
) -> bool {
    let ci1 = pre.window_ci(g, p1);
    let ai1 = window_ai(p1);
    let ci2 = pre.window_ci(g, p2);
    let ai2 = window_ai(p2);
    &&& post.same_config(pre)
    &&& post.dt == pre.dt
    &&& post.tick_count == pre.tick_count
    &&& post.chunks@.len() == pre.chunks@.len()
    &&& post.window_atom(g, p1) == pre.window_atom(g, p2).stamped(tick)
    &&& post.window_atom(g, p2) == pre.window_atom(g, p1).stamped(tick)
    &&& forall|cj: int, aj: int|
        pre.valid_cell(cj, aj) && !(cj == ci1 && aj == ai1) && !(cj == ci2 && aj == ai2)
            ==> #[trigger] post.cell(cj, aj) == pre.cell(cj, aj)
    &&& post.chunks@[ci1].active
    &&& post.chunks@[ci2].active
    &&& forall|cj: int|
        0 <= cj < pre.chunks@.len() && cj != ci1 && cj != ci2
            ==> #[trigger] post.chunks@[cj].active == pre.chunks@[cj].active
    &&& post.updates@ == pre.updates@
        .push(DeferredUpdate::UpdateImage { chunk_idx: ci1 as usize, pos: g2l_local_spec(p1) })
        .push(DeferredUpdate::UpdateImage { chunk_idx: ci2 as usize, pos: g2l_local_spec(p2) })
        .push(DeferredUpdate::UpdateDirtyRect { chunk_idx: ci1 as usize, pos: g2l_local_spec(p1) })
        .push(DeferredUpdate::UpdateDirtyRect { chunk_idx: ci2 as usize, pos: g2l_local_spec(p2) })
}

/// Exchanges the atoms at two window positions of one group, stamping both
/// with the current tick and recording both for the render collaborator.
pub fn swap(grid: &mut Grid, group: &ChunkGroup, pos1: Vec2i, pos2: Vec2i, tick: u64)
    requires
        old(grid).wf(),
        group.wf(*old(grid)),
        old(grid).window_present(*group, pos1),
        old(grid).window_present(*group, pos2),
        pos1 != pos2,
    ensures
        final(grid).wf(),
        swap_effect(*old(grid), *final(grid), *group, pos1, pos2, tick),
{
    proof {
        lemma_resolve_injective(*grid, *group, pos1, pos2);
    }
    let r1 = resolve(grid, group, pos1).unwrap();
    let r2 = resolve(grid, group, pos2).unwrap();
    let a1 = grid.chunks[r1.0].atoms[r1.1];
    let a2 = grid.chunks[r2.0].atoms[r2.1];
    let mut n1 = a2;
    n1.updated_at = tick;
    let mut n2 = a1;
    n2.updated_at = tick;
    grid.chunks[r1.0].atoms[r1.1] = n1;
    grid.chunks[r2.0].atoms[r2.1] = n2;
    grid.chunks[r1.0].active = true;
    grid.chunks[r2.0].active = true;
    let side = crate::consts::CHUNK_LENGTH as i32;
    let l1 = Vec2i { x: pos1.x % side, y: pos1.y % side };
    let l2 = Vec2i { x: pos2.x % side, y: pos2.y % side };
    grid.updates.push(DeferredUpdate::UpdateImage { chunk_idx: r1.0, pos: l1 });
    grid.updates.push(DeferredUpdate::UpdateImage { chunk_idx: r2.0, pos: l2 });
    grid.updates.push(DeferredUpdate::UpdateDirtyRect { chunk_idx: r1.0, pos: l1 });
    grid.updates.push(DeferredUpdate::UpdateDirtyRect { chunk_idx: r2.0, pos: l2 });
}

} // verus!
