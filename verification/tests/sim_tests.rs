use sandgrid::atom::{Atom, State, Vec2i};
use sandgrid::consts::UPDATE_TIME;
use sandgrid::grid::{ChunkGroup, Grid};
use sandgrid::render::DeferredUpdate;
use sandgrid::rng::seeded_rng;
use sandgrid::window::{
    down_neigh, dt_updatable, get_fspeed, get_global, get_vel, set_fspeed, set_vel, side_neigh,
    swap, swapable,
};

fn v(x: i32, y: i32) -> Vec2i {
    Vec2i { x, y }
}

fn count_material(g: &Grid, m: State) -> usize {
    let mut n = 0;
    for y in 0..(g.grid_height as i32) * 64 {
        for x in 0..(g.grid_width as i32) * 64 {
            if let Some(a) = g.cell_at(v(x, y)) {
                if a.state == m {
                    n += 1;
                }
            }
        }
    }
    n
}

fn find_in_column(g: &Grid, x: i32, m: State) -> Option<(i32, Atom)> {
    for y in 0..(g.grid_height as i32) * 64 {
        if let Some(a) = g.cell_at(v(x, y)) {
            if a.state == m {
                return Some((y, a));
            }
        }
    }
    None
}

#[test]
fn new_grid_rounds_dimensions_up_to_even() {
    let g = Grid::new(3, 5, 1, 4);
    assert_eq!(g.grid_width, 4);
    assert_eq!(g.grid_height, 6);
    let g = Grid::new(2, 2, 1, 4);
    assert_eq!(g.grid_width, 2);
    assert_eq!(g.grid_height, 2);
}

#[test]
fn cell_at_rejects_out_of_bounds() {
    let g = Grid::new(2, 2, 1, 4);
    assert!(g.cell_at(v(-1, 0)).is_none());
    assert!(g.cell_at(v(0, -1)).is_none());
    assert!(g.cell_at(v(128, 0)).is_none());
    assert!(g.cell_at(v(0, 128)).is_none());
    let a = g.cell_at(v(0, 0)).unwrap();
    assert_eq!(a.state, State::Void);
}

#[test]
fn set_cell_writes_and_reports_dirty() {
    let mut g = Grid::new(2, 2, 1, 4);
    assert!(!g.set_cell(v(200, 0), Atom::of_state(State::Powder)));
    assert!(g.set_cell(v(65, 2), Atom::of_state(State::Powder)));
    let a = g.cell_at(v(65, 2)).unwrap();
    assert_eq!(a.state, State::Powder);
    let updates = g.dirty_regions();
    assert_eq!(updates.len(), 2);
    // chunk (1, 0) of a 2-wide grid has index 1; local position is (1, 2)
    assert_eq!(
        updates[0],
        DeferredUpdate::UpdateImage { chunk_idx: 1, pos: v(1, 2) }
    );
    assert_eq!(
        updates[1],
        DeferredUpdate::UpdateDirtyRect { chunk_idx: 1, pos: v(1, 2) }
    );
    // drained: a second call returns nothing
    assert!(g.dirty_regions().is_empty());
}

#[test]
fn window_border_queries_resolve_to_absent() {
    let g = Grid::new(2, 2, 1, 4);
    let group = ChunkGroup { center_x: 0, center_y: 0 };
    // slot 0 lies beyond the top-left grid corner
    assert!(get_global(&g, &group, v(0, 0)).is_none());
    // outside the window coordinate space entirely
    assert!(get_global(&g, &group, v(-1, 5)).is_none());
    assert!(get_global(&g, &group, v(192, 5)).is_none());
    // the center chunk itself is always present
    assert!(get_global(&g, &group, v(64, 64)).is_some());
}

#[test]
fn swap_exchanges_stamps_and_records() {
    let mut g = Grid::new(2, 2, 1, 4);
    g.set_cell(v(0, 0), Atom::of_state(State::Powder));
    g.dirty_regions();
    let group = ChunkGroup { center_x: 0, center_y: 0 };
    swap(&mut g, &group, v(64, 64), v(65, 65), 9);
    let a = g.cell_at(v(0, 0)).unwrap();
    let b = g.cell_at(v(1, 1)).unwrap();
    assert_eq!(a.state, State::Void);
    assert_eq!(b.state, State::Powder);
    assert_eq!(a.updated_at, 9);
    assert_eq!(b.updated_at, 9);
    let updates = g.dirty_regions();
    assert_eq!(updates.len(), 4);
    assert_eq!(
        updates[0],
        DeferredUpdate::UpdateImage { chunk_idx: 0, pos: v(0, 0) }
    );
    assert_eq!(
        updates[1],
        DeferredUpdate::UpdateImage { chunk_idx: 0, pos: v(1, 1) }
    );
    assert_eq!(
        updates[2],
        DeferredUpdate::UpdateDirtyRect { chunk_idx: 0, pos: v(0, 0) }
    );
    assert_eq!(
        updates[3],
        DeferredUpdate::UpdateDirtyRect { chunk_idx: 0, pos: v(1, 1) }
    );
}

#[test]
fn swapable_follows_void_and_displacement_rules() {
    let mut g = Grid::new(2, 2, 1, 4);
    g.set_cell(v(2, 0), Atom::of_state(State::Liquid));
    g.set_cell(v(3, 0), Atom::of_state(State::Solid));
    let group = ChunkGroup { center_x: 0, center_y: 0 };
    let mut rng = seeded_rng(3);
    // void destination: always taken
    assert!(swapable(&g, &group, v(64, 64), &[], 1, &mut rng));
    // a liquid with displacement probability 100 percent: always taken
    assert!(swapable(&g, &group, v(66, 64), &[(State::Liquid, 100)], 1, &mut rng));
    // probability 0: never taken
    assert!(!swapable(&g, &group, v(66, 64), &[(State::Liquid, 0)], 1, &mut rng));
    // a material not listed: never taken
    assert!(!swapable(&g, &group, v(67, 64), &[(State::Liquid, 100)], 1, &mut rng));
    // absent destination: never taken
    assert!(!swapable(&g, &group, v(0, 0), &[], 1, &mut rng));
    assert!(!swapable(&g, &group, v(300, 300), &[], 1, &mut rng));
}

#[test]
fn dt_updatable_skips_atoms_moved_this_tick() {
    let mut g = Grid::new(2, 2, 1, 4);
    let mut moved = Atom::of_state(State::Powder);
    moved.updated_at = 4;
    g.set_cell(v(0, 0), moved);
    let group = ChunkGroup { center_x: 0, center_y: 0 };
    assert!(!dt_updatable(&g, &group, v(64, 64), 4));
    assert!(dt_updatable(&g, &group, v(64, 64), 5));
    // void cells stay examinable whatever their stamp
    assert!(dt_updatable(&g, &group, v(65, 64), 4));
    // absent cells are not examinable
    assert!(!dt_updatable(&g, &group, v(0, 0), 4));
}

#[test]
fn velocity_and_fall_speed_accessors() {
    let mut g = Grid::new(2, 2, 1, 4);
    g.set_cell(v(0, 0), Atom::of_state(State::Powder));
    let group = ChunkGroup { center_x: 0, center_y: 0 };
    let p = v(64, 64);
    assert_eq!(get_vel(&g, &group, p), None);
    set_vel(&mut g, &group, p, v(2, 3));
    assert_eq!(get_vel(&g, &group, p), Some(v(2, 3)));
    // a zero vector is canonically "no lateral motion"
    set_vel(&mut g, &group, p, v(0, 0));
    assert_eq!(get_vel(&g, &group, p), None);
    assert_eq!(get_fspeed(&g, &group, p), 0);
    set_fspeed(&mut g, &group, p, 9);
    assert_eq!(get_fspeed(&g, &group, p), 9);
}

#[test]
fn neighbor_probes_cover_the_right_offsets() {
    let mut g = Grid::new(2, 2, 1, 4);
    g.set_cell(v(6, 7), Atom::of_state(State::Solid));
    let group = ChunkGroup { center_x: 0, center_y: 0 };
    let mut rng = seeded_rng(1);
    let pos = v(70, 70);  // world (6, 6)
    let d = down_neigh(&g, &group, pos, &[], 1, &mut rng);
    assert_eq!(d[0].1, v(0, 1));
    assert!(!d[0].0);  // solid straight below
    let mut offs = vec![(d[1].1.x, d[1].1.y), (d[2].1.x, d[2].1.y)];
    offs.sort();
    assert_eq!(offs, vec![(-1, 1), (1, 1)]);
    assert!(d[1].0 && d[2].0);  // both diagonals are void

    let s = side_neigh(&g, &group, pos, &[], 1, &mut rng);
    let mut offs = vec![(s[0].1.x, s[0].1.y), (s[1].1.x, s[1].1.y)];
    offs.sort();
    assert_eq!(offs, vec![(-1, 0), (1, 0)]);
    assert!(s[0].0 && s[1].0);
}

#[test]
fn tick_accumulates_and_consumes_fixed_steps() {
    let mut g = Grid::new(2, 2, 1, 4);
    let mut rng = seeded_rng(11);
    assert!(!g.tick(100, &mut rng));
    assert_eq!(g.dt, 100);
    assert_eq!(g.tick_count, 0);
    assert!(g.tick(UPDATE_TIME, &mut rng));
    assert_eq!(g.dt, 100);  // leftover is carried over, never reset
    assert_eq!(g.tick_count, 1);
    assert!(!g.tick(0, &mut rng));
    assert_eq!(g.dt, 100);
}

#[test]
fn powder_with_void_below_never_rests() {
    let mut g = Grid::new(2, 2, 1, 4);
    g.set_cell(v(10, 10), Atom::of_state(State::Powder));
    let mut rng = seeded_rng(5);
    assert!(g.tick(UPDATE_TIME, &mut rng));
    let a = g.cell_at(v(10, 10)).unwrap();
    assert_eq!(a.state, State::Void);
}

#[test]
fn moved_atom_carries_this_ticks_stamp() {
    let mut g = Grid::new(2, 2, 1, 4);
    g.set_cell(v(0, 0), Atom::of_state(State::Powder));
    let mut rng = seeded_rng(2);
    assert!(g.tick(UPDATE_TIME, &mut rng));
    let (y, a) = find_in_column(&g, 0, State::Powder).unwrap();
    assert!(y > 0);
    assert_eq!(a.updated_at, 1);
    assert_eq!(g.tick_count, 1);
}

#[test]
fn border_powder_stays_inside_the_grid() {
    let mut g = Grid::new(2, 2, 1, 4);
    g.set_cell(v(0, 127), Atom::of_state(State::Powder));
    let mut rng = seeded_rng(8);
    for _ in 0..3 {
        g.tick(UPDATE_TIME, &mut rng);
    }
    // nowhere to fall at the bottom-left corner: the atom stays put,
    // its fall velocity cleared the moment the cell below was blocked
    let a = g.cell_at(v(0, 127)).unwrap();
    assert_eq!(a.state, State::Powder);
    assert_eq!(a.fall_velocity, 0);
    assert_eq!(count_material(&g, State::Powder), 1);
}

#[test]
fn ticks_conserve_mass() {
    let mut g = Grid::new(2, 2, 1, 4);
    for x in 0..6 {
        g.set_cell(v(20 + x, 0), Atom::of_state(State::Powder));
        g.set_cell(v(20 + x, 1), Atom::of_state(State::Liquid));
    }
    g.set_cell(v(22, 40), Atom::of_state(State::Solid));
    g.set_cell(v(23, 40), Atom::of_state(State::Solid));
    let mut rng = seeded_rng(13);
    for _ in 0..4 {
        assert!(g.tick(UPDATE_TIME, &mut rng));
        assert_eq!(count_material(&g, State::Powder), 6);
        assert_eq!(count_material(&g, State::Liquid), 6);
        assert_eq!(count_material(&g, State::Solid), 2);
    }
}

#[test]
fn free_fall_accelerates_to_terminal() {
    let mut g = Grid::new(2, 2, 1, 4);
    g.set_cell(v(0, 0), Atom::of_state(State::Powder));
    let mut rng = seeded_rng(21);
    let mut last_y = 0;
    for _ in 0..5 {
        assert!(g.tick(UPDATE_TIME, &mut rng));
        let (y, a) = find_in_column(&g, 0, State::Powder).unwrap();
        assert!(y > last_y);  // strictly increasing each tick
        assert!(y - last_y <= 4);  // never faster than terminal velocity
        assert!(a.fall_velocity <= 4);
        last_y = y;
    }
}

#[test]
fn stacked_liquid_levels_out() {
    let mut g = Grid::new(2, 2, 1, 4);
    // a basin of width 3 at the bottom-left corner, walled at x = 3
    for y in 124..128 {
        g.set_cell(v(3, y), Atom::of_state(State::Solid));
    }
    g.set_cell(v(0, 127), Atom::of_state(State::Liquid));
    g.set_cell(v(0, 126), Atom::of_state(State::Liquid));
    let mut rng = seeded_rng(17);
    for _ in 0..12 {
        g.tick(UPDATE_TIME, &mut rng);
    }
    let mut liquids = Vec::new();
    for y in 0..128 {
        for x in 0..128 {
            if let Some(a) = g.cell_at(v(x, y)) {
                if a.state == State::Liquid {
                    liquids.push((x, y));
                }
            }
        }
    }
    assert_eq!(liquids.len(), 2);
    for (x, y) in &liquids {
        assert_eq!(*y, 127);  // a single layer on the floor
        assert!(*x >= 0 && *x < 3);
    }
    assert_ne!(liquids[0].0, liquids[1].0);
}
