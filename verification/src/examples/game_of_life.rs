//! Conway's Game of Life.

use crate::engine::automaton::{moore_of, AutomatonCell, Neighborhood};
use crate::fields::Pos2D;
use vstd::prelude::*;

verus! {

/// A cell that is alive or dead.
#[derive(Copy, Clone, PartialEq, Debug)]
pub struct GameOfLife {
    pub life: bool,
    pub pos: Pos2D,
}

/// How many of `cells` are alive.
pub open spec fn live_count(cells: Seq<GameOfLife>) -> nat
    decreases cells.len(),
{
    if cells.len() == 0 {
        0
    } else {
        live_count(cells.drop_last()) + if cells.last().life {
            1nat
        } else {
            0nat
        }
    }
}

/// Whether a cell is alive in the next generation: a dead cell with three
/// live neighbours comes to life, and a live cell stays alive with two or
/// three.
pub open spec fn lives_on(life: bool, live_neighbours: nat) -> bool {
    if life {
        live_neighbours == 2 || live_neighbours == 3
    } else {
        live_neighbours == 3
    }
}

impl GameOfLife {
    /// A live cell at `pos`.
    pub fn new_life(pos: &Pos2D) -> (cell: Self)
        ensures
            cell == (GameOfLife { life: true, pos: *pos }),
    {
        GameOfLife { life: true, pos: *pos }
    }

    fn update_life<N: Neighborhood<Self>>(&self, neighborhood: &N) -> (life: bool)
        requires
            neighborhood.inhabited(),
        ensures
            life == lives_on(
                self.life,
                live_count(moore_of(neighborhood.lookup(), self.pos.x as int, self.pos.y as int)),
            ),
    {
        let near = neighborhood.moore(&self.pos);
        let mut live: usize = 0;
        let mut n: usize = 0;
        while n < near.len()
            invariant
                n <= near@.len() == 8,
                live == live_count(near@.take(n as int)),
                live <= n,
            decreases near@.len() - n,
        {
            proof {
                assert(near@.take(n + 1).drop_last() =~= near@.take(n as int));
            }
            if near[n].life {
                live += 1;
            }
            n += 1;
        }
        proof {
            assert(near@.take(8) =~= near@);
        }
        if !self.life && live == 3 {
            true
        } else if self.life && (live < 2 || live > 3) {
            false
        } else {
            self.life
        }
    }
}

impl AutomatonCell for GameOfLife {
    open spec fn fresh(pos: Pos2D) -> Self {
        GameOfLife { life: false, pos }
    }

    open spec fn place(&self) -> Pos2D {
        self.pos
    }

    open spec fn evolve(&self, around: spec_fn(int, int) -> Self) -> Self {
        GameOfLife {
            life: lives_on(
                self.life,
                live_count(moore_of(around, self.pos.x as int, self.pos.y as int)),
            ),
            pos: self.pos,
        }
    }

    fn update<N: Neighborhood<Self>>(&self, neighborhood: &N) -> (next: Self) {
        GameOfLife { life: self.update_life(neighborhood), pos: self.pos }
    }

    fn position(&self) -> (pos: Pos2D) {
        self.pos
    }

    fn new(pos: &Pos2D) -> (cell: Self) {
        GameOfLife { life: false, pos: *pos }
    }
}

} // verus!
