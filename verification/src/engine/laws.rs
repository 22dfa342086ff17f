//! Laws of stepping and patching a board.

use crate::engine::automaton::{flat_key, patched, stepped, torus, AutomatonCell};
use vstd::prelude::*;

verus! {

/// A board whose cells all evolve into themselves is its own next
/// generation. This is so in particular where no cell looks at the cells
/// around it and each stays as it is.
pub proof fn lemma_fixed_point<C: AutomatonCell>(cells: Seq<C>, dim: int)
    requires
        forall|k: int| 0 <= k < cells.len() ==> (#[trigger] cells[k]).evolve(torus(cells, dim))
            == cells[k],
    ensures
        stepped(cells, dim) == cells,
{
}

/// A change that is staged when the board is stepped is in the board that
/// the cells evolve in: the cell in the place of the change evolves from
/// the staged cell, and every cell evolves among cells of which the staged
/// cell is one. Changes staged before for other places are there as well.
pub proof fn lemma_patch_then_step<C: AutomatonCell>(
    cells: Seq<C>,
    dim: int,
    changes: Map<usize, C>,
    changed: C,
)
    requires
        dim > 0,
        cells.len() == dim * dim,
        dim * dim <= usize::MAX,
    ensures
        ({
            let at = flat_key(changed.place().x as int, changed.place().y as int, dim);
            let staged = changes.insert(at as usize, changed);
            let before = patched(cells, staged);
            let after = stepped(before, dim);
            &&& 0 <= at < cells.len()
            &&& before[at] == changed
            &&& torus(before, dim)(changed.place().x as int, changed.place().y as int) == changed
            &&& forall|k: int|
                0 <= k < cells.len() && k != at ==> before[k] == patched(cells, changes)[k]
            &&& forall|k: int|
                0 <= k < cells.len() ==> #[trigger] after[k] == before[k].evolve(
                    torus(before, dim),
                )
        }),
{
    crate::engine::automaton::lemma_flat_key_bound(
        changed.place().x as int,
        changed.place().y as int,
        dim,
    );
}

} // verus!
