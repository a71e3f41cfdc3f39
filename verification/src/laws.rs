//! Grid-global consequences of the update engine's contract.
//!
//! `World::update` guarantees [`owners_drawn_from`] between the previous and
//! the next cell array: an owned cell of the new generation belongs to an
//! empire that already held some cell of the old one. The lemmas here draw
//! the two board-level conclusions from that relation.

use vstd::prelude::*;

use crate::engine::owners_drawn_from;
use crate::world::Cell;

verus! {

/// No spontaneous ownership: when no cell of the previous generation was
/// owned, no cell of the next generation is owned either. With no empire
/// anywhere on the grid there is nothing to contend, so every cell stays
/// unclaimed, whatever the random draws did.
pub proof fn lemma_no_spontaneous_ownership(old_cells: Seq<Cell>, new_cells: Seq<Cell>)
    requires
        owners_drawn_from(old_cells, new_cells),
        forall|j: int| 0 <= j < old_cells.len() ==> (#[trigger] old_cells[j]).owner == 0,
    ensures
        forall|i: int| 0 <= i < new_cells.len() ==> (#[trigger] new_cells[i]).owner == 0,
{
    assert forall|i: int| 0 <= i < new_cells.len() implies (#[trigger] new_cells[i]).owner
        == 0 by {
        if new_cells[i].owner != 0 {
            let j = choose|j: int|
                0 <= j < old_cells.len() && (#[trigger] old_cells[j]).owner == new_cells[i].owner;
            assert(old_cells[j].owner == 0);
        }
    }
}

/// Single-empire confinement: when every owned cell of the previous
/// generation belonged to empire `e`, the same holds of the next
/// generation. Applied once per `update`, this shows that repeated updates
/// of a grid held by a single empire never put any other empire's id on the
/// board.
pub proof fn lemma_single_empire_confinement(old_cells: Seq<Cell>, new_cells: Seq<Cell>, e: u16)
    requires
        owners_drawn_from(old_cells, new_cells),
        forall|j: int|
            0 <= j < old_cells.len() ==> ((#[trigger] old_cells[j]).owner == 0
                || old_cells[j].owner == e),
    ensures
        forall|i: int|
            0 <= i < new_cells.len() ==> ((#[trigger] new_cells[i]).owner == 0
                || new_cells[i].owner == e),
{
    assert forall|i: int| 0 <= i < new_cells.len() implies ((#[trigger] new_cells[i]).owner == 0
        || new_cells[i].owner == e) by {
        if new_cells[i].owner != 0 {
            let j = choose|j: int|
                0 <= j < old_cells.len() && (#[trigger] old_cells[j]).owner == new_cells[i].owner;
            assert(old_cells[j].owner == 0 || old_cells[j].owner == e);
        }
    }
}

/// Single-empire confinement over a whole run: in a chain of generations
/// each produced from the previous one by `World::update`, if every owned
/// cell of the first generation belonged to empire `e`, then no other
/// empire's id ever appears in any later generation.
pub proof fn lemma_single_empire_confinement_chain(gens: Seq<Seq<Cell>>, e: u16)
    requires
        gens.len() > 0,
        forall|n: int| 0 <= n < gens.len() - 1 ==> owners_drawn_from(#[trigger] gens[n], gens[n + 1]),
        forall|j: int|
            0 <= j < gens[0].len() ==> ((#[trigger] gens[0][j]).owner == 0 || gens[0][j].owner
                == e),
    ensures
        forall|n: int, i: int|
            0 <= n < gens.len() && 0 <= i < gens[n].len() ==> ((#[trigger] gens[n][i]).owner == 0
                || gens[n][i].owner == e),
    decreases gens.len(),
{
    if gens.len() > 1 {
        let front = gens.drop_last();
        assert forall|n: int| 0 <= n < front.len() - 1 implies owners_drawn_from(
            #[trigger] front[n],
            front[n + 1],
        ) by {
            assert(front[n] == gens[n] && front[n + 1] == gens[n + 1]);
        }
        assert(front[0] == gens[0]);
        lemma_single_empire_confinement_chain(front, e);
        assert(front[gens.len() - 2] == gens[gens.len() - 2]);
        lemma_single_empire_confinement(gens[gens.len() - 2], gens[gens.len() - 1], e);
        assert forall|n: int, i: int|
            0 <= n < gens.len() && 0 <= i < gens[n].len() implies ((#[trigger] gens[n][i]).owner
            == 0 || gens[n][i].owner == e) by {
            if n < gens.len() - 1 {
                assert(gens[n] == front[n]);
            }
        }
    }
}

} // verus!
