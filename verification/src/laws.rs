use vstd::prelude::*;
use crate::atom::{Atom, State, Vec2i};
use crate::chunk::Chunk;
use crate::grid::{lemma_resolve_injective, window_ai, ChunkGroup, Grid};
use crate::update::lemma_window_chunk_in_window;
use crate::window::{can_take, cell_write_effect, displaceable, swap_effect};

verus! {

/// Number of atoms of material `m` in a row of atoms.
pub open spec fn count_in_seq(s: Seq<Atom>, m: State) -> int
    decreases s.len(),
{
    if s.len() == 0 {
        0
    } else {
        count_in_seq(s.drop_last(), m) + if s.last().state == m {
            1int
        } else {
            0int
        }
    }
}

/// Number of atoms of material `m` in a sequence of chunk contents.
pub open spec fn count_in_chunks(cs: Seq<Seq<Atom>>, m: State) -> int
    decreases cs.len(),
{
    if cs.len() == 0 {
        0
    } else {
        count_in_chunks(cs.drop_last(), m) + count_in_seq(cs.last(), m)
    }
}

/// The atom contents of every chunk of the grid, chunk-major.
pub open spec fn grid_atoms(g: Grid) -> Seq<Seq<Atom>> {
    g.chunks@.map_values(|c: Chunk| c.atoms@)
}

/// Number of cells of the whole grid holding material `m`.
pub open spec fn material_count(g: Grid, m: State) -> int {
    count_in_chunks(grid_atoms(g), m)
}

proof fn lemma_count_seq_update(s: Seq<Atom>, i: int, a: Atom, m: State)
    requires
        0 <= i < s.len(),
    ensures
        count_in_seq(s.update(i, a), m) == count_in_seq(s, m)
            - (if s[i].state == m { 1int } else { 0int })
            + (if a.state == m { 1int } else { 0int }),
    decreases s.len(),
{
    let t = s.update(i, a);
    if i == s.len() - 1 {
        assert(t.drop_last() =~= s.drop_last());
        assert(t.last() == a);
    } else {
        assert(t.drop_last() =~= s.drop_last().update(i, a));
        assert(t.last() == s.last());
        lemma_count_seq_update(s.drop_last(), i, a, m);
        assert(s.drop_last()[i] == s[i]);
    }
}

proof fn lemma_count_chunks_update(cs: Seq<Seq<Atom>>, i: int, ns: Seq<Atom>, m: State)
    requires
        0 <= i < cs.len(),
    ensures
        count_in_chunks(cs.update(i, ns), m) == count_in_chunks(cs, m)
            - count_in_seq(cs[i], m) + count_in_seq(ns, m),
    decreases cs.len(),
{
    let t = cs.update(i, ns);
    if i == cs.len() - 1 {
        assert(t.drop_last() =~= cs.drop_last());
        assert(t.last() == ns);
    } else {
        assert(t.drop_last() =~= cs.drop_last().update(i, ns));
        assert(t.last() == cs.last());
        lemma_count_chunks_update(cs.drop_last(), i, ns, m);
        assert(cs.drop_last()[i] == cs[i]);
    }
}

/// Mass-conservation law: a swap never changes how many cells of the whole
/// grid hold any given material — it exchanges two full atoms, creating
/// and destroying nothing.
pub proof fn lemma_swap_conserves_mass(
    pre: Grid,
    post: Grid,
    g: ChunkGroup,
    p1: Vec2i,
    p2: Vec2i,
    tick: u64,
    m: State,
)
    requires
        pre.wf(),
        post.wf(),
        g.wf(pre),
        pre.window_present(g, p1),
        pre.window_present(g, p2),
        p1 != p2,
        swap_effect(pre, post, g, p1, p2, tick),
    ensures
        material_count(post, m) == material_count(pre, m),
{
    let ci1 = pre.window_ci(g, p1);
    let ai1 = window_ai(p1);
    let ci2 = pre.window_ci(g, p2);
    let ai2 = window_ai(p2);
    let a1 = pre.window_atom(g, p1);
    let a2 = pre.window_atom(g, p2);
    lemma_window_chunk_in_window(pre, g, p1);
    lemma_window_chunk_in_window(pre, g, p2);
    lemma_resolve_injective(pre, g, p1, p2);
    let pa = grid_atoms(pre);
    assert(pa.len() == pre.chunks@.len());
    assert(post.chunks@.len() == pre.chunks@.len());
    if ci1 == ci2 {
        let s0 = pa[ci1];
        assert(s0 == pre.chunks@[ci1].atoms@);
        assert(ai1 != ai2);
        let s1 = s0.update(ai1, a2.stamped(tick)).update(ai2, a1.stamped(tick));
        assert(grid_atoms(post) =~~= pa.update(ci1, s1)) by {
            assert forall|cj: int| 0 <= cj < pa.len()
                implies grid_atoms(post)[cj] =~= pa.update(ci1, s1)[cj] by {
                if cj == ci1 {
                    assert forall|aj: int| 0 <= aj < crate::consts::CHUNK_LEN as int
                        implies post.chunks@[cj].atoms@[aj] == s1[aj] by {
                        if aj == ai1 {
                            assert(post.cell(ci1, ai1) == a2.stamped(tick));
                        } else if aj == ai2 {
                            assert(post.cell(ci2, ai2) == a1.stamped(tick));
                        } else {
                            assert(post.cell(cj, aj) == pre.cell(cj, aj));
                        }
                    }
                } else {
                    assert forall|aj: int| 0 <= aj < crate::consts::CHUNK_LEN as int
                        implies post.chunks@[cj].atoms@[aj] == pa[cj][aj] by {
                        assert(post.cell(cj, aj) == pre.cell(cj, aj));
                    }
                }
            }
        }
        lemma_count_chunks_update(pa, ci1, s1, m);
        lemma_count_seq_update(s0, ai1, a2.stamped(tick), m);
        lemma_count_seq_update(s0.update(ai1, a2.stamped(tick)), ai2, a1.stamped(tick), m);
        assert(s0.update(ai1, a2.stamped(tick))[ai2] == s0[ai2]);
        assert(s0[ai1] == a1 && s0[ai2] == a2);
    } else {
        let s1 = pa[ci1].update(ai1, a2.stamped(tick));
        let s2 = pa[ci2].update(ai2, a1.stamped(tick));
        assert(grid_atoms(post) =~~= pa.update(ci1, s1).update(ci2, s2)) by {
            assert forall|cj: int| 0 <= cj < pa.len()
                implies grid_atoms(post)[cj] =~= pa.update(ci1, s1).update(ci2, s2)[cj] by {
                if cj == ci1 {
                    assert forall|aj: int| 0 <= aj < crate::consts::CHUNK_LEN as int
                        implies post.chunks@[cj].atoms@[aj] == s1[aj] by {
                        if aj == ai1 {
                            assert(post.cell(ci1, ai1) == a2.stamped(tick));
                        } else {
                            assert(post.cell(cj, aj) == pre.cell(cj, aj));
                        }
                    }
                } else if cj == ci2 {
                    assert forall|aj: int| 0 <= aj < crate::consts::CHUNK_LEN as int
                        implies post.chunks@[cj].atoms@[aj] == s2[aj] by {
                        if aj == ai2 {
                            assert(post.cell(ci2, ai2) == a1.stamped(tick));
                        } else {
                            assert(post.cell(cj, aj) == pre.cell(cj, aj));
                        }
                    }
                } else {
                    assert forall|aj: int| 0 <= aj < crate::consts::CHUNK_LEN as int
                        implies post.chunks@[cj].atoms@[aj] == pa[cj][aj] by {
                        assert(post.cell(cj, aj) == pre.cell(cj, aj));
                    }
                }
            }
        }
        lemma_count_chunks_update(pa, ci1, s1, m);
        lemma_count_chunks_update(pa.update(ci1, s1), ci2, s2, m);
        assert(pa.update(ci1, s1)[ci2] == pa[ci2]);
        lemma_count_seq_update(pa[ci1], ai1, a2.stamped(tick), m);
        lemma_count_seq_update(pa[ci2], ai2, a1.stamped(tick), m);
        assert(pa[ci1][ai1] == a1 && pa[ci2][ai2] == a2);
    }
}

/// A single-cell write that keeps the cell's material keeps every material
/// count of the grid.
pub proof fn lemma_write_conserves_mass(
    pre: Grid,
    post: Grid,
    g: ChunkGroup,
    p: Vec2i,
    a: Atom,
    m: State,
)
    requires
        pre.wf(),
        post.wf(),
        g.wf(pre),
        pre.window_present(g, p),
        cell_write_effect(pre, post, g, p, a),
        a.state == pre.window_atom(g, p).state,
    ensures
        material_count(post, m) == material_count(pre, m),
{
    let ci = pre.window_ci(g, p);
    let ai = window_ai(p);
    lemma_window_chunk_in_window(pre, g, p);
    let pa = grid_atoms(pre);
    let s1 = pa[ci].update(ai, a);
    assert(grid_atoms(post) =~~= pa.update(ci, s1)) by {
        assert forall|cj: int| 0 <= cj < pa.len()
            implies grid_atoms(post)[cj] =~= pa.update(ci, s1)[cj] by {
            if cj == ci {
                assert forall|aj: int| 0 <= aj < crate::consts::CHUNK_LEN as int
                    implies post.chunks@[cj].atoms@[aj] == s1[aj] by {
                    if aj == ai {
                        assert(post.cell(ci, ai) == a);
                    } else {
                        assert(post.cell(cj, aj) == pre.cell(cj, aj));
                    }
                }
            } else {
                assert forall|aj: int| 0 <= aj < crate::consts::CHUNK_LEN as int
                    implies post.chunks@[cj].atoms@[aj] == pa[cj][aj] by {
                    assert(post.cell(cj, aj) == pre.cell(cj, aj));
                }
            }
        }
    }
    lemma_count_chunks_update(pa, ci, s1, m);
    lemma_count_seq_update(pa[ci], ai, a, m);
    assert(pa[ci][ai] == pre.window_atom(g, p));
}

/// Grids equal cell for cell hold equal material counts.
pub proof fn lemma_mass_eq_pointwise(pre: Grid, post: Grid, m: State)
    requires
        pre.wf(),
        post.wf(),
        post.chunks@.len() == pre.chunks@.len(),
        forall|cj: int, aj: int|
            pre.valid_cell(cj, aj) ==> #[trigger] post.cell(cj, aj) == pre.cell(cj, aj),
    ensures
        material_count(post, m) == material_count(pre, m),
{
    assert(grid_atoms(post) =~~= grid_atoms(pre)) by {
        assert forall|cj: int| 0 <= cj < grid_atoms(pre).len()
            implies grid_atoms(post)[cj] =~= grid_atoms(pre)[cj] by {
            assert forall|aj: int| 0 <= aj < crate::consts::CHUNK_LEN as int
                implies post.chunks@[cj].atoms@[aj] == pre.chunks@[cj].atoms@[aj] by {
                assert(post.cell(cj, aj) == pre.cell(cj, aj));
            }
        }
    }
}

/// Single-move-per-tick law: a cell whose atom already carries this tick's
/// stamp (as both sides of every swap do, see [`swap_effect`]) is skipped
/// by the scan gate, and no destination test may take it unless it is
/// void. So no rule moves an atom twice within one tick.
pub proof fn lemma_single_move_per_tick(
    g: Grid,
    gr: ChunkGroup,
    p: Vec2i,
    states: Seq<(State, u8)>,
    tick: u64,
    taken: bool,
)
    requires
        g.window_present(gr, p),
        g.window_atom(gr, p).updated_at == tick,
        g.window_atom(gr, p).state != State::Void,
        can_take(g, gr, p, states, tick, taken),
    ensures
        !taken,
        !(g.window_atom(gr, p).updated_at != tick || g.window_atom(gr, p).state == State::Void),
{
    assert(!displaceable(g.window_atom(gr, p), states, tick));
}

} // verus!
