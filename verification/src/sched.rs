use vstd::prelude::*;
use vstd::arithmetic::div_mod::lemma_fundamental_div_mod_converse;
use crate::atom::{Atom, State, Vec2i};
use crate::consts::{CHUNK_LEN, MAX_GRID_DIM, UPDATE_TIME};
use crate::grid::{lemma_grid_index_bound, ChunkGroup, Grid};
use crate::laws::{grid_atoms, material_count};
use crate::rng::rand_range;
use crate::update::{chunk_in_window, lemma_prefix_trans, update_chunks};

verus! {

/// Membership of a chunk coordinate in the checkerboard class
/// `(xo, yo)` with `xo, yo` in `{0, 1}`.
pub open spec fn in_phase(cx: int, cy: int, xo: int, yo: int) -> bool {
    &&& cx % 2 == xo
    &&& cy % 2 == yo
}

/// Chebyshev distance of two chunk coordinates.
pub open spec fn chebyshev(x1: int, y1: int, x2: int, y2: int) -> int {
    let dx = if x1 >= x2 { x1 - x2 } else { x2 - x1 };
    let dy = if y1 >= y2 { y1 - y2 } else { y2 - y1 };
    if dx >= dy {
        dx
    } else {
        dy
    }
}

/// The activity flag of the chunk at `(cx, cy)`.
pub open spec fn chunk_active_at(g: Grid, cx: int, cy: int) -> bool {
    g.chunks@[cy * g.grid_width as int + cx].active
}

/// The cells of the chunk at `(cx, cy)`.
pub open spec fn chunk_atoms(g: Grid, cx: int, cy: int) -> Seq<Atom> {
    g.chunks@[cy * g.grid_width as int + cx].atoms@
}

/// Whether the chunk at `(cx, cy)` lies at Chebyshev distance at least 2
/// from every active chunk of the grid, so that no active chunk's 3x3
/// window reaches it.
pub open spec fn chunk_isolated(g: Grid, cx: int, cy: int) -> bool {
    forall|ax: int, ay: int|
        0 <= ax < g.grid_width as int && 0 <= ay < g.grid_height as int
            && #[trigger] chunk_active_at(g, ax, ay)
            ==> chebyshev(cx, cy, ax, ay) >= 2
}

/// Whether every powder or liquid cell of the chunk at `(cx, cy)`
/// carries the stamp `t`.
pub open spec fn chunk_settled(g: Grid, cx: int, cy: int, t: u64) -> bool {
    forall|aj: int|
        0 <= aj < chunk_atoms(g, cx, cy).len()
            ==> (((#[trigger] chunk_atoms(g, cx, cy)[aj]).state == State::Powder
                || chunk_atoms(g, cx, cy)[aj].state == State::Liquid)
                ==> chunk_atoms(g, cx, cy)[aj].updated_at == t)
}

/// A center chunk whose window cells are all settled is settled as a chunk.
pub proof fn lemma_center_settled_chunk(g: Grid, gr: ChunkGroup, t: u64)
    requires
        g.wf(),
        gr.wf(g),
        forall|px: int, py: int|
            64 <= px < 128 && 64 <= py < 128
                ==> #[trigger] crate::update::cell_settled(g, gr, px, py, t),
    ensures
        chunk_settled(g, gr.center_x as int, gr.center_y as int, t),
{
    let w = g.grid_width as int;
    let ccx = gr.center_x as int;
    let ccy = gr.center_y as int;
    lemma_grid_index_bound(w, g.grid_height as int, ccx, ccy);
    let cj = ccy * w + ccx;
    assert forall|aj: int| 0 <= aj < chunk_atoms(g, ccx, ccy).len()
        implies (((#[trigger] chunk_atoms(g, ccx, ccy)[aj]).state == State::Powder
            || chunk_atoms(g, ccx, ccy)[aj].state == State::Liquid)
            ==> chunk_atoms(g, ccx, ccy)[aj].updated_at == t) by {
        vstd::arithmetic::div_mod::lemma_fundamental_div_mod(aj, 64);
        vstd::arithmetic::div_mod::lemma_mod_bound(aj, 64);
        let px = 64 + aj % 64;
        let py = 64 + aj / 64;
        assert(crate::update::cell_settled(g, gr, px, py, t));
        let p = Vec2i { x: px as i32, y: py as i32 };
        assert(crate::grid::window_ai(p) == aj);
        assert(g.window_ci(gr, p) == cj);
        assert(g.window_atom(gr, p) == chunk_atoms(g, ccx, ccy)[aj]);
    }
}

/// Window-locality law of the scheduler partition: two distinct chunks of
/// one checkerboard class lie at Chebyshev distance at least 2.
pub proof fn lemma_phase_chebyshev(x1: int, y1: int, x2: int, y2: int, xo: int, yo: int)
    requires
        in_phase(x1, y1, xo, yo),
        in_phase(x2, y2, xo, yo),
        !(x1 == x2 && y1 == y2),
    ensures
        chebyshev(x1, y1, x2, y2) >= 2,
{
    if x1 != x2 {
        assert(x1 % 2 == x2 % 2);
        assert(x1 - x2 != 1 && x2 - x1 != 1);
    } else {
        assert(y1 % 2 == y2 % 2);
        assert(y1 - y2 != 1 && y2 - y1 != 1);
    }
}

/// In particular, no chunk of one class lies inside the 3x3 window of
/// another chunk of the same class: distinct same-class centers are never
/// each other's neighbors.
pub proof fn lemma_phase_centers_not_neighbors(
    x1: int, y1: int, x2: int, y2: int,
    xo: int, yo: int,
    ox: int, oy: int,
)
    requires
        in_phase(x1, y1, xo, yo),
        in_phase(x2, y2, xo, yo),
        !(x1 == x2 && y1 == y2),
        -1 <= ox <= 1,
        -1 <= oy <= 1,
    ensures
        !(x1 == x2 + ox && y1 == y2 + oy),
{
    lemma_phase_chebyshev(x1, y1, x2, y2, xo, yo);
}

/// Lexicographic order on chunk coordinates, rows first.
pub open spec fn lex_less(a: Vec2i, b: Vec2i) -> bool {
    a.y < b.y || (a.y == b.y && a.x < b.x)
}

/// The chunk coordinates of one checkerboard class of a grid, in row-major
/// order: exactly the in-grid coordinates congruent to `(xo, yo)` mod 2 —
/// one quarter of the grid, each coordinate once.
pub fn chunks_in_phase(width: usize, height: usize, xo: usize, yo: usize) -> (r: Vec<Vec2i>)
    requires
        width % 2 == 0,
        height % 2 == 0,
        2 <= width <= MAX_GRID_DIM,
        2 <= height <= MAX_GRID_DIM,
        xo < 2,
        yo < 2,
    ensures
        forall|k: int| 0 <= k < r@.len()
            ==> 0 <= (#[trigger] r@[k]).x < width as int && 0 <= r@[k].y < height as int
                && in_phase(r@[k].x as int, r@[k].y as int, xo as int, yo as int),
        r@.len() == (width as int / 2) * (height as int / 2),
        forall|k1: int, k2: int| 0 <= k1 < k2 < r@.len()
            ==> lex_less(#[trigger] r@[k1], #[trigger] r@[k2]),
{
    let mut r: Vec<Vec2i> = Vec::new();
    let mut cy: usize = yo;
    proof {
        assert(((cy - yo) as int / 2) * (width as int / 2) == 0) by (nonlinear_arith)
            requires cy == yo;
    }
    while cy < height
        invariant
            width % 2 == 0,
            height % 2 == 0,
            2 <= width <= MAX_GRID_DIM,
            2 <= height <= MAX_GRID_DIM,
            xo < 2,
            yo < 2,
            yo <= cy <= height + 1,
            cy as int % 2 == yo as int,
            r@.len() == ((cy - yo) as int / 2) * (width as int / 2),
            forall|k: int| 0 <= k < r@.len()
                ==> 0 <= (#[trigger] r@[k]).x < width as int && 0 <= r@[k].y < cy as int
                    && in_phase(r@[k].x as int, r@[k].y as int, xo as int, yo as int),
            forall|k1: int, k2: int| 0 <= k1 < k2 < r@.len()
                ==> lex_less(#[trigger] r@[k1], #[trigger] r@[k2]),
        decreases height + 2 - cy,
    {
        let ghost rows_done = (cy - yo) as int / 2;
        let mut cx: usize = xo;
        while cx < width
            invariant
                width % 2 == 0,
                2 <= width <= MAX_GRID_DIM,
                xo < 2,
                cy < height,
                height <= MAX_GRID_DIM,
                xo <= cx <= width + 1,
                cx as int % 2 == xo as int,
                cy as int % 2 == yo as int,
                yo < 2,
                rows_done == (cy - yo) as int / 2,
                r@.len() == rows_done * (width as int / 2) + (cx - xo) as int / 2,
                forall|k: int| 0 <= k < r@.len()
                    ==> 0 <= (#[trigger] r@[k]).x < width as int && 0 <= r@[k].y <= cy as int
                        && in_phase(r@[k].x as int, r@[k].y as int, xo as int, yo as int),
                forall|k: int| 0 <= k < r@.len()
                    ==> lex_less(#[trigger] r@[k], Vec2i { x: cx as i32, y: cy as i32 }),
                forall|k1: int, k2: int| 0 <= k1 < k2 < r@.len()
                    ==> lex_less(#[trigger] r@[k1], #[trigger] r@[k2]),
            decreases width + 2 - cx,
        {
            r.push(Vec2i { x: cx as i32, y: cy as i32 });
            cx += 2;
        }
        proof {
            assert((cx - xo) as int / 2 == width as int / 2);
            assert((rows_done + 1) * (width as int / 2) == rows_done * (width as int / 2) + width as int / 2)
                by (nonlinear_arith);
            assert(((cy + 2 - yo) as int) / 2 == rows_done + 1);
        }
        cy += 2;
    }
    proof {
        assert((cy - yo) as int / 2 == height as int / 2);
        assert((height as int / 2) * (width as int / 2) == (width as int / 2) * (height as int / 2))
            by (nonlinear_arith);
    }
    r
}

impl Grid {
    /// Advances the simulation by `delta` microseconds of world time:
    /// accumulates the time, and when the accumulator has reached the fixed
    /// step, runs exactly one four-phase checkerboard sweep over the active
    /// chunks and consumes one fixed step, carrying any leftover time over.
    /// Never runs more than one sweep per call.
    pub fn tick(&mut self, delta: u64, rng: &mut fastrand::Rng) -> (swept: bool)
        requires
            old(self).wf(),
            old(self).dt + delta <= u64::MAX,
            old(self).tick_count < u64::MAX,
        ensures
            final(self).wf(),
            final(self).same_config(*old(self)),
            swept <==> old(self).dt + delta >= UPDATE_TIME,
            !swept ==> final(self).dt == old(self).dt + delta
                && final(self).tick_count == old(self).tick_count
                && final(self).chunks == old(self).chunks
                && final(self).updates == old(self).updates,
            swept ==> final(self).dt == old(self).dt + delta - UPDATE_TIME
                && final(self).tick_count == old(self).tick_count + 1
                && old(self).updates@.is_prefix_of(final(self).updates@),
            forall|m: State|
                #[trigger] material_count(*final(self), m) == material_count(*old(self), m),
            // a chunk that ends a sweep awake holds a cell that moved in
            // it: the flags are cleared first and recomputed from this
            // tick's movement alone
            forall|cj: int|
                0 <= cj < final(self).chunks@.len()
                    && (#[trigger] final(self).chunks@[cj]).active && swept
                    ==> exists|aj: int|
                        0 <= aj < CHUNK_LEN as int
                        && (#[trigger] final(self).cell(cj, aj)).updated_at
                            == old(self).tick_count + 1,
            // after a sweep, every powder or liquid cell of a chunk that
            // was active at tick start carries the new stamp: each such
            // chunk is dispatched in its checkerboard phase and scanned
            swept ==> forall|cx: int, cy: int|
                0 <= cx < old(self).grid_width as int
                    && 0 <= cy < old(self).grid_height as int
                    && #[trigger] chunk_active_at(*old(self), cx, cy)
                    ==> chunk_settled(*final(self), cx, cy, (old(self).tick_count + 1) as u64),
            // chunks at Chebyshev distance >= 2 from every chunk that was
            // active at tick start keep their atoms and stay asleep
            swept ==> forall|cx: int, cy: int|
                0 <= cx < old(self).grid_width as int
                    && 0 <= cy < old(self).grid_height as int
                    && #[trigger] chunk_isolated(*old(self), cx, cy)
                    ==> chunk_atoms(*final(self), cx, cy) == chunk_atoms(*old(self), cx, cy)
                        && !chunk_active_at(*final(self), cx, cy),
    {
        self.dt = self.dt + delta;
        if self.dt < UPDATE_TIME {
            proof {
                assert(grid_atoms(*self) == grid_atoms(*old(self)));
            }
            return false;
        }
        let ghost pre = *self;
        let cur = self.tick_count + 1;
        let w = self.grid_width;
        let h = self.grid_height;
        let n = self.chunks.len();

        // snapshot each chunk's activity, and clear every flag before any
        // work: workers re-set it as a side effect of movement
        let mut snapshot: Vec<bool> = Vec::new();
        let mut i: usize = 0;
        while i < n
            invariant
                i <= n,
                n == pre.chunks@.len(),
                pre.wf(),
                self.wf(),
                self.same_config(pre),
                self.dt == pre.dt,
                self.tick_count == pre.tick_count,
                self.updates@ == pre.updates@,
                self.chunks@.len() == n,
                snapshot@.len() == i,
                forall|k: int| 0 <= k < i ==> snapshot@[k] == pre.chunks@[k].active,
                forall|cj: int, aj: int| pre.valid_cell(cj, aj)
                    ==> #[trigger] self.cell(cj, aj) == pre.cell(cj, aj),
                forall|k: int| 0 <= k < i ==> (#[trigger] self.chunks@[k]).active == false,
                forall|k: int| i <= k < n ==> (#[trigger] self.chunks@[k]).active == pre.chunks@[k].active,
            decreases n - i,
        {
            snapshot.push(self.chunks[i].active);
            let ghost prev = *self;
            self.chunks[i].active = false;
            proof {
                assert(self.chunks@[i as int].atoms == prev.chunks@[i as int].atoms);
                assert forall|cj: int, aj: int| pre.valid_cell(cj, aj)
                    implies #[trigger] self.cell(cj, aj) == pre.cell(cj, aj) by {
                    assert(prev.cell(cj, aj) == pre.cell(cj, aj));
                    if cj == i as int {
                        assert(self.cell(cj, aj) == prev.cell(cj, aj));
                    }
                }
            }
            i += 1;
        }

        proof {
            assert forall|m: State| #[trigger] material_count(*self, m) == material_count(pre, m) by {
                crate::laws::lemma_mass_eq_pointwise(pre, *self, m);
            }
            // every flag is cleared before any work begins
            assert forall|cj: int| 0 <= cj < n && (#[trigger] self.chunks@[cj]).active
                implies exists|aj: int| 0 <= aj < CHUNK_LEN as int
                    && (#[trigger] self.cell(cj, aj)).updated_at == cur by {
                assert(!self.chunks@[cj].active);
            }
            // nothing has moved yet: isolated chunks still match the start
            assert forall|icx: int, icy: int| 0 <= icx < w as int && 0 <= icy < h as int
                && #[trigger] chunk_isolated(pre, icx, icy)
                implies chunk_atoms(*self, icx, icy) == chunk_atoms(pre, icx, icy)
                    && !chunk_active_at(*self, icx, icy) by {
                lemma_grid_index_bound(w as int, h as int, icx, icy);
                let cj = icy * w as int + icx;
                assert forall|aj: int| 0 <= aj < CHUNK_LEN as int
                    implies self.chunks@[cj].atoms@[aj] == pre.chunks@[cj].atoms@[aj] by {
                    assert(self.cell(cj, aj) == pre.cell(cj, aj));
                }
                assert(chunk_atoms(*self, icx, icy) =~= chunk_atoms(pre, icx, icy));
                assert(!self.chunks@[cj].active);
            }
        }

        // the four checkerboard phases, in a random order; within one phase
        // the selected centers are Chebyshev >= 2 apart, so none lies in
        // another's window and motion cannot chain within one phase
        let yords = rand_range(0, 2, rng);
        let mut pi: usize = 0;
        while pi < yords.len()
            invariant
                pre.wf(),
                self.wf(),
                self.same_config(pre),
                self.dt == pre.dt,
                self.tick_count == pre.tick_count,
                pre.updates@.is_prefix_of(self.updates@),
                forall|m: State| #[trigger] material_count(*self, m) == material_count(pre, m),
                forall|k: int| 0 <= k < n ==> #[trigger] snapshot@[k] == pre.chunks@[k].active,
                forall|cj: int| 0 <= cj < n && (#[trigger] self.chunks@[cj]).active
                    ==> exists|aj: int| 0 <= aj < CHUNK_LEN as int
                        && (#[trigger] self.cell(cj, aj)).updated_at == cur,
                forall|cj: int, aj: int| pre.valid_cell(cj, aj)
                    && #[trigger] self.cell(cj, aj) != pre.cell(cj, aj)
                    ==> self.cell(cj, aj).updated_at == cur,
                forall|icx: int, icy: int| 0 <= icx < w as int && 0 <= icy < h as int
                    && #[trigger] chunk_isolated(pre, icx, icy)
                    ==> chunk_atoms(*self, icx, icy) == chunk_atoms(pre, icx, icy)
                        && !chunk_active_at(*self, icx, icy),
                forall|icx: int, icy: int|
                    #![trigger chunk_active_at(pre, icx, icy)]
                    0 <= icx < w as int && 0 <= icy < h as int
                        && chunk_active_at(pre, icx, icy)
                        && (exists|i: int| 0 <= i < pi && #[trigger] yords@[i] as int == icy % 2)
                        ==> chunk_settled(*self, icx, icy, cur),
                w == pre.grid_width,
                h == pre.grid_height,
                n == pre.chunks@.len(),
                snapshot@.len() == n,
                pi <= yords.len(),
                forall|q: int| 0 <= q < yords@.len() ==> #[trigger] yords@[q] < 2,
            decreases yords.len() - pi,
        {
            let xords = rand_range(0, 2, rng);
            let mut pj: usize = 0;
            while pj < xords.len()
                invariant
                    pre.wf(),
                    self.wf(),
                    self.same_config(pre),
                    self.dt == pre.dt,
                    self.tick_count == pre.tick_count,
                    pre.updates@.is_prefix_of(self.updates@),
                    forall|m: State| #[trigger] material_count(*self, m) == material_count(pre, m),
                    forall|k: int| 0 <= k < n ==> #[trigger] snapshot@[k] == pre.chunks@[k].active,
                    forall|cj: int| 0 <= cj < n && (#[trigger] self.chunks@[cj]).active
                        ==> exists|aj: int| 0 <= aj < CHUNK_LEN as int
                            && (#[trigger] self.cell(cj, aj)).updated_at == cur,
                    forall|cj: int, aj: int| pre.valid_cell(cj, aj)
                        && #[trigger] self.cell(cj, aj) != pre.cell(cj, aj)
                        ==> self.cell(cj, aj).updated_at == cur,
                    forall|icx: int, icy: int| 0 <= icx < w as int && 0 <= icy < h as int
                        && #[trigger] chunk_isolated(pre, icx, icy)
                        ==> chunk_atoms(*self, icx, icy) == chunk_atoms(pre, icx, icy)
                            && !chunk_active_at(*self, icx, icy),
                    forall|icx: int, icy: int|
                        #![trigger chunk_active_at(pre, icx, icy)]
                        0 <= icx < w as int && 0 <= icy < h as int
                            && chunk_active_at(pre, icx, icy)
                            && ((exists|i: int| 0 <= i < pi && #[trigger] yords@[i] as int == icy % 2)
                                || (icy % 2 == yords@[pi as int] as int && (exists|j: int| 0 <= j < pj && #[trigger] xords@[j] as int == icx % 2)))
                            ==> chunk_settled(*self, icx, icy, cur),
                    w == pre.grid_width,
                    h == pre.grid_height,
                    n == pre.chunks@.len(),
                    snapshot@.len() == n,
                    pi < yords.len(),
                    pj <= xords.len(),
                    forall|q: int| 0 <= q < yords@.len() ==> #[trigger] yords@[q] < 2,
                    forall|q: int| 0 <= q < xords@.len() ==> #[trigger] xords@[q] < 2,
                decreases xords.len() - pj,
            {
                let yo = yords[pi];
                let xo = xords[pj];
                let mut cy: usize = yo;
                while cy < h
                    invariant
                        pre.wf(),
                        self.wf(),
                        self.same_config(pre),
                        self.dt == pre.dt,
                        self.tick_count == pre.tick_count,
                        pre.updates@.is_prefix_of(self.updates@),
                        forall|m: State| #[trigger] material_count(*self, m) == material_count(pre, m),
                        forall|k: int| 0 <= k < n ==> #[trigger] snapshot@[k] == pre.chunks@[k].active,
                        forall|cj: int| 0 <= cj < n && (#[trigger] self.chunks@[cj]).active
                            ==> exists|aj: int| 0 <= aj < CHUNK_LEN as int
                                && (#[trigger] self.cell(cj, aj)).updated_at == cur,
                        forall|cj: int, aj: int| pre.valid_cell(cj, aj)
                            && #[trigger] self.cell(cj, aj) != pre.cell(cj, aj)
                            ==> self.cell(cj, aj).updated_at == cur,
                        forall|icx: int, icy: int| 0 <= icx < w as int && 0 <= icy < h as int
                            && #[trigger] chunk_isolated(pre, icx, icy)
                            ==> chunk_atoms(*self, icx, icy) == chunk_atoms(pre, icx, icy)
                                && !chunk_active_at(*self, icx, icy),
                        forall|icx: int, icy: int|
                            #![trigger chunk_active_at(pre, icx, icy)]
                            0 <= icx < w as int && 0 <= icy < h as int
                                && chunk_active_at(pre, icx, icy)
                                && ((exists|i: int| 0 <= i < pi && #[trigger] yords@[i] as int == icy % 2)
                                    || (icy % 2 == yo as int && (exists|j: int| 0 <= j < pj && #[trigger] xords@[j] as int == icx % 2))
                                    || (icy % 2 == yo as int && icx % 2 == xo as int && icy < cy as int))
                                ==> chunk_settled(*self, icx, icy, cur),
                        yo == yords@[pi as int] && yo < 2,
                        xo == xords@[pj as int] && xo < 2,
                        cy as int % 2 == yo as int,
                        w == pre.grid_width,
                        h == pre.grid_height,
                        n == pre.chunks@.len(),
                        snapshot@.len() == n,
                    decreases h + 2 - cy,
                {
                    let mut cx: usize = xo;
                    while cx < w
                        invariant
                            pre.wf(),
                            self.wf(),
                            self.same_config(pre),
                            self.dt == pre.dt,
                            self.tick_count == pre.tick_count,
                            pre.updates@.is_prefix_of(self.updates@),
                            forall|m: State| #[trigger] material_count(*self, m) == material_count(pre, m),
                            forall|k: int| 0 <= k < n ==> #[trigger] snapshot@[k] == pre.chunks@[k].active,
                            forall|cj: int| 0 <= cj < n && (#[trigger] self.chunks@[cj]).active
                                ==> exists|aj: int| 0 <= aj < CHUNK_LEN as int
                                    && (#[trigger] self.cell(cj, aj)).updated_at == cur,
                            forall|cj: int, aj: int| pre.valid_cell(cj, aj)
                                && #[trigger] self.cell(cj, aj) != pre.cell(cj, aj)
                                ==> self.cell(cj, aj).updated_at == cur,
                            forall|icx: int, icy: int| 0 <= icx < w as int && 0 <= icy < h as int
                                && #[trigger] chunk_isolated(pre, icx, icy)
                                ==> chunk_atoms(*self, icx, icy) == chunk_atoms(pre, icx, icy)
                                    && !chunk_active_at(*self, icx, icy),
                            forall|icx: int, icy: int|
                                #![trigger chunk_active_at(pre, icx, icy)]
                                0 <= icx < w as int && 0 <= icy < h as int
                                    && chunk_active_at(pre, icx, icy)
                                    && ((exists|i: int| 0 <= i < pi && #[trigger] yords@[i] as int == icy % 2)
                                        || (icy % 2 == yo as int && (exists|j: int| 0 <= j < pj && #[trigger] xords@[j] as int == icx % 2))
                                        || (icy % 2 == yo as int && icx % 2 == xo as int && icy < cy as int)
                                        || (icy % 2 == yo as int && icx % 2 == xo as int && icy == cy as int && icx < cx as int))
                                    ==> chunk_settled(*self, icx, icy, cur),
                            yo == yords@[pi as int] && yo < 2,
                            xo == xords@[pj as int] && xo < 2,
                            cy as int % 2 == yo as int,
                            cx as int % 2 == xo as int,
                            w == pre.grid_width,
                            h == pre.grid_height,
                            n == pre.chunks@.len(),
                            snapshot@.len() == n,
                            cy < h,
                        decreases w + 2 - cx,
                    {
                        proof {
                            lemma_grid_index_bound(w as int, h as int, cx as int, cy as int);
                        }
                        let idx = cy * w + cx;
                        if snapshot[idx] {
                            let group = ChunkGroup { center_x: cx, center_y: cy };
                            let ghost before = *self;
                            update_chunks(self, &group, cur, rng);
                            proof {
                                lemma_prefix_trans(pre.updates@, before.updates@, self.updates@);
                                // the dispatched center was active at tick start
                                assert(chunk_active_at(pre, cx as int, cy as int));
                                // stamped-cell witnesses survive this pass
                                assert forall|cj: int| 0 <= cj < n
                                    && (#[trigger] self.chunks@[cj]).active
                                    implies exists|aj: int| 0 <= aj < CHUNK_LEN as int
                                        && (#[trigger] self.cell(cj, aj)).updated_at == cur by {
                                    if before.chunks@[cj].active {
                                        let aj = choose|aj: int| 0 <= aj < CHUNK_LEN as int
                                            && (#[trigger] before.cell(cj, aj)).updated_at == cur;
                                        assert(before.valid_cell(cj, aj));
                                        assert(self.cell(cj, aj).updated_at == cur);
                                    }
                                }
                                // whatever changed since tick start is stamped
                                assert forall|cj: int, aj: int| pre.valid_cell(cj, aj)
                                    && #[trigger] self.cell(cj, aj) != pre.cell(cj, aj)
                                    implies self.cell(cj, aj).updated_at == cur by {
                                    if self.cell(cj, aj) == before.cell(cj, aj) {
                                        assert(before.cell(cj, aj) != pre.cell(cj, aj));
                                    }
                                }
                                // this 3x3 window does not reach isolated chunks
                                assert forall|icx: int, icy: int|
                                    0 <= icx < w as int && 0 <= icy < h as int
                                    && #[trigger] chunk_isolated(pre, icx, icy)
                                    implies chunk_atoms(*self, icx, icy)
                                        == chunk_atoms(pre, icx, icy)
                                        && !chunk_active_at(*self, icx, icy) by {
                                    lemma_grid_index_bound(w as int, h as int, icx, icy);
                                    let cj = icy * (w as int) + icx;
                                    lemma_fundamental_div_mod_converse(cj, w as int, icy, icx);
                                    assert(chebyshev(icx, icy, cx as int, cy as int) >= 2);
                                    assert(!chunk_in_window(before, group, cj));
                                    assert forall|aj: int| 0 <= aj < CHUNK_LEN as int
                                        implies self.chunks@[cj].atoms@[aj]
                                            == before.chunks@[cj].atoms@[aj] by {
                                        assert(self.cell(cj, aj) == before.cell(cj, aj));
                                    }
                                    assert(chunk_atoms(*self, icx, icy)
                                        =~= chunk_atoms(before, icx, icy));
                                    assert(self.chunks@[cj].active == before.chunks@[cj].active);
                                }
                                // the dispatched chunk is now fully settled
                                lemma_center_settled_chunk(*self, group, cur);
                                assert(chunk_settled(*self, cx as int, cy as int, cur));
                                // chunks settled earlier stay settled
                                assert forall|icx: int, icy: int|
                                    0 <= icx < w as int && 0 <= icy < h as int
                                    && chunk_settled(before, icx, icy, cur)
                                    implies chunk_settled(*self, icx, icy, cur) by {
                                    lemma_grid_index_bound(w as int, h as int, icx, icy);
                                    let cj = icy * (w as int) + icx;
                                    assert forall|aj: int|
                                        0 <= aj < chunk_atoms(*self, icx, icy).len()
                                        implies (((#[trigger] chunk_atoms(*self, icx, icy)[aj]).state
                                                == State::Powder
                                            || chunk_atoms(*self, icx, icy)[aj].state == State::Liquid)
                                            ==> chunk_atoms(*self, icx, icy)[aj].updated_at == cur) by {
                                        assert(chunk_atoms(*self, icx, icy)[aj] == self.cell(cj, aj));
                                        assert(chunk_atoms(before, icx, icy)[aj] == before.cell(cj, aj));
                                        assert(before.valid_cell(cj, aj));
                                    }
                                }
                            }
                        }
                        cx += 2;
                    }
                    proof {
                        assert forall|icx: int, icy: int|
                            0 <= icx < w as int && 0 <= icy < h as int
                                && #[trigger] chunk_active_at(pre, icx, icy)
                                && icy % 2 == yo as int && icx % 2 == xo as int
                                && icy < cy as int + 2
                            implies chunk_settled(*self, icx, icy, cur) by {
                        }
                    }
                    cy += 2;
                }
                proof {
                    assert forall|icx: int, icy: int|
                        0 <= icx < w as int && 0 <= icy < h as int
                            && #[trigger] chunk_active_at(pre, icx, icy)
                            && ((exists|i: int| 0 <= i < pi && #[trigger] yords@[i] as int == icy % 2)
                                || (icy % 2 == yo as int
                                    && (exists|j: int| 0 <= j < pj + 1
                                        && #[trigger] xords@[j] as int == icx % 2)))
                        implies chunk_settled(*self, icx, icy, cur) by {
                        if !(exists|i: int| 0 <= i < pi && #[trigger] yords@[i] as int == icy % 2) {
                            let j = choose|j: int| 0 <= j < pj + 1 && xords@[j] as int == icx % 2;
                            if j == pj {
                                assert(xords@[j] as int == xo as int);
                            }
                        }
                    }
                }
                pj += 1;
            }
            proof {
                assert forall|icx: int, icy: int|
                    0 <= icx < w as int && 0 <= icy < h as int
                        && #[trigger] chunk_active_at(pre, icx, icy)
                        && (exists|i: int| 0 <= i < pi + 1 && #[trigger] yords@[i] as int == icy % 2)
                    implies chunk_settled(*self, icx, icy, cur) by {
                    let i = choose|i: int| 0 <= i < pi + 1 && yords@[i] as int == icy % 2;
                    if i == pi {
                        assert(xords@.contains((icx % 2) as usize));
                        let j = choose|j: int|
                            0 <= j < xords@.len() && xords@[j] == (icx % 2) as usize;
                        assert(xords@[j] as int == icx % 2);
                    }
                }
            }
            pi += 1;
        }

        let ghost swept_state = *self;
        self.dt = self.dt - UPDATE_TIME;
        self.tick_count = cur;
        proof {
            assert forall|m: State|
                #[trigger] material_count(*self, m) == material_count(*old(self), m) by {
                assert(grid_atoms(*self) == grid_atoms(swept_state));
                assert(grid_atoms(pre) == grid_atoms(*old(self)));
                assert(material_count(swept_state, m) == material_count(pre, m));
            }
            assert forall|cj: int| 0 <= cj < self.chunks@.len()
                && (#[trigger] self.chunks@[cj]).active
                implies exists|aj: int| 0 <= aj < CHUNK_LEN as int
                    && (#[trigger] self.cell(cj, aj)).updated_at == cur by {
                assert(swept_state.chunks@[cj].active);
                let aj = choose|aj: int| 0 <= aj < CHUNK_LEN as int
                    && (#[trigger] swept_state.cell(cj, aj)).updated_at == cur;
                assert(self.cell(cj, aj) == swept_state.cell(cj, aj));
            }
            assert forall|icx: int, icy: int|
                0 <= icx < w as int && 0 <= icy < h as int
                && #[trigger] chunk_active_at(*old(self), icx, icy)
                implies chunk_settled(*self, icx, icy, cur) by {
                assert(chunk_active_at(pre, icx, icy));
                assert(yords@.contains((icy % 2) as usize));
                let i = choose|i: int| 0 <= i < yords@.len() && yords@[i] == (icy % 2) as usize;
                assert(yords@[i] as int == icy % 2);
                assert(chunk_settled(swept_state, icx, icy, cur));
                lemma_grid_index_bound(w as int, h as int, icx, icy);
                assert(chunk_atoms(*self, icx, icy) == chunk_atoms(swept_state, icx, icy));
            }
            assert forall|icx: int, icy: int|
                0 <= icx < w as int && 0 <= icy < h as int
                && #[trigger] chunk_isolated(*old(self), icx, icy)
                implies chunk_atoms(*self, icx, icy) == chunk_atoms(*old(self), icx, icy)
                    && !chunk_active_at(*self, icx, icy) by {
                assert(chunk_isolated(pre, icx, icy)) by {
                    assert forall|ax: int, ay: int|
                        0 <= ax < pre.grid_width as int && 0 <= ay < pre.grid_height as int
                        && #[trigger] chunk_active_at(pre, ax, ay)
                        implies chebyshev(icx, icy, ax, ay) >= 2 by {
                        assert(chunk_active_at(*old(self), ax, ay));
                    }
                }
                assert(chunk_atoms(*self, icx, icy) == chunk_atoms(swept_state, icx, icy));
                assert(chunk_atoms(pre, icx, icy) == chunk_atoms(*old(self), icx, icy));
                assert(chunk_active_at(*self, icx, icy)
                    == chunk_active_at(swept_state, icx, icy));
            }
        }
        true
    }
}

} // verus!
