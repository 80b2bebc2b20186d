use sandgrid::atom::{Vec2i, D1};
use sandgrid::coords::{global_to_local, local_to_global, transform_to_chunk};
use sandgrid::render::{extend_rect_if_needed, Rect};
use sandgrid::rng::{rand_range, seeded_rng};
use sandgrid::sched::chunks_in_phase;

fn v(x: i32, y: i32) -> Vec2i {
    Vec2i { x, y }
}

#[test]
fn global_to_local_exact() {
    let (local, slot) = global_to_local(v(70, 130));
    assert_eq!(local.x, 6);
    assert_eq!(local.y, 2);
    assert_eq!(slot, 7);

    let (local, slot) = global_to_local(v(0, 0));
    assert_eq!((local.x, local.y, slot), (0, 0, 0));

    let (local, slot) = global_to_local(v(191, 191));
    assert_eq!((local.x, local.y, slot), (63, 63, 8));
}

#[test]
fn local_to_global_exact() {
    let g = local_to_global((v(6, 2), 7));
    assert_eq!((g.x, g.y), (70, 130));
    let g = local_to_global((v(0, 0), 0));
    assert_eq!((g.x, g.y), (0, 0));
    let g = local_to_global((v(63, 63), 8));
    assert_eq!((g.x, g.y), (191, 191));
}

#[test]
fn coord_round_trip_all_window_positions() {
    // round-trip over a sampled diagonal band plus the borders
    for t in 0..192 {
        for p in [v(t, 0), v(0, t), v(t, t), v(t, 191), v(191, t)] {
            let back = local_to_global(global_to_local(p));
            assert_eq!((back.x, back.y), (p.x, p.y));
        }
    }
}

#[test]
fn transform_to_chunk_exact() {
    // chunk side in pixels is 64 * 4 = 256
    assert_eq!(transform_to_chunk(v(0, 0), 2, 3), Some((v(0, 0), 0)));
    assert_eq!(transform_to_chunk(v(300, 520), 2, 3), Some((v(11, 2), 5)));
    assert_eq!(transform_to_chunk(v(-1, 0), 2, 3), None);
    assert_eq!(transform_to_chunk(v(0, -5), 2, 3), None);
    assert_eq!(transform_to_chunk(v(512, 0), 2, 3), None);
    assert_eq!(transform_to_chunk(v(0, 768), 2, 3), None);
}

#[test]
fn d1_flattens_row_major() {
    assert_eq!(v(3, 2).d1(), 131);
    assert_eq!(v(0, 0).d1(), 0);
    assert_eq!(v(63, 63).d1(), 4095);
}

#[test]
fn extend_rect_moves_one_edge_per_axis() {
    let mut r = Rect { min: v(10, 10), max: v(20, 20) };
    extend_rect_if_needed(&mut r, &v(5, 25));
    assert_eq!((r.min.x, r.max.x), (5, 20));
    assert_eq!((r.min.y, r.max.y), (10, 25));

    let mut r = Rect { min: v(10, 10), max: v(20, 20) };
    extend_rect_if_needed(&mut r, &v(70, -3));
    assert_eq!((r.min.x, r.max.x), (10, 63));
    assert_eq!((r.min.y, r.max.y), (0, 20));

    // a position inside the rectangle changes nothing
    let mut r = Rect { min: v(10, 10), max: v(20, 20) };
    extend_rect_if_needed(&mut r, &v(15, 15));
    assert_eq!((r.min.x, r.min.y, r.max.x, r.max.y), (10, 10, 20, 20));
}

#[test]
fn rand_range_is_a_permutation() {
    let mut rng = seeded_rng(7);
    let shuffled = rand_range(0, 16, &mut rng);
    let mut sorted = shuffled.clone();
    sorted.sort();
    let expected: Vec<usize> = (0..16).collect();
    assert_eq!(sorted, expected);
    // with this seed the shuffle reorders: the library did not hand the
    // ordered range back unchanged
    assert_ne!(shuffled, expected);
}

#[test]
fn checkerboard_phase_selection() {
    let cells = chunks_in_phase(4, 4, 0, 0);
    let got: Vec<(i32, i32)> = cells.iter().map(|c| (c.x, c.y)).collect();
    assert_eq!(got, vec![(0, 0), (2, 0), (0, 2), (2, 2)]);
    // pairwise Chebyshev distance of selected chunks is at least 2
    for a in &cells {
        for b in &cells {
            if (a.x, a.y) != (b.x, b.y) {
                let d = (a.x - b.x).abs().max((a.y - b.y).abs());
                assert!(d >= 2);
            }
        }
    }
}

#[test]
fn checkerboard_phases_tile_the_grid() {
    let mut seen = vec![false; 16];
    for yo in 0..2 {
        for xo in 0..2 {
            for c in chunks_in_phase(4, 4, xo, yo) {
                let idx = (c.y * 4 + c.x) as usize;
                assert!(!seen[idx]);
                seen[idx] = true;
            }
        }
    }
    assert!(seen.iter().all(|&s| s));
}
