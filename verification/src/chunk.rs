use vstd::prelude::*;
use crate::atom::Atom;
use crate::consts::CHUNK_LEN;

verus! {

/// A fixed-size square tile of atoms, row-major; the unit of activity
/// tracking and of render-buffer allocation.
pub struct Chunk {
    /// `CHUNK_LEN` atoms, row-major.
    pub atoms: Vec<Atom>,
    /// True when the chunk held movement this tick or may move next tick;
    /// inactive chunks are skipped whole by the scheduler.
    pub active: bool,
}

impl Chunk {
    pub open spec fn wf(self) -> bool {
        self.atoms@.len() == CHUNK_LEN as int
    }

    /// A fresh, all-void chunk, initially active so that the first tick
    /// examines it.
    pub fn new() -> (r: Chunk)
        ensures
            r.wf(),
            r.active,
            forall|i: int| 0 <= i < CHUNK_LEN as int ==> #[trigger] r.atoms@[i] == Atom::void_spec(),
    {
        let mut atoms: Vec<Atom> = Vec::new();
        let mut k: usize = 0;
        while k < CHUNK_LEN
            invariant
                k <= CHUNK_LEN,
                atoms@.len() == k,
                forall|i: int| 0 <= i < k ==> #[trigger] atoms@[i] == Atom::void_spec(),
            decreases CHUNK_LEN - k,
        {
            atoms.push(Atom::void());
            k += 1;
        }
        Chunk { atoms, active: true }
    }
}

} // verus!
