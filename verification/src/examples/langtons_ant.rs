//! Langton's ant.

use crate::engine::automaton::{
    neumann_of, visit_rank, AutomatonCell, Neighborhood, Neumann,
};
use crate::fields::{Dir2D, Pos2D};
use vstd::prelude::*;

verus! {

/// A cell with a colour that an ant may stand on. The ant has a heading.
#[derive(Copy, Clone, PartialEq, Debug)]
pub struct LangtonsAnt {
    pub color: bool,
    pub dir: Option<Dir2D>,
    pub pos: Pos2D,
}

/// Whether the neighbour in the direction `dir` holds an ant that is headed
/// for the cell in the middle.
pub open spec fn comes_from(near: Neumann<LangtonsAnt>, dir: Dir2D) -> bool {
    near.spec_at(dir).dir == Some(dir.spec_turn_around())
}

/// The first direction, of up, right, down and left, from which an ant
/// comes to the cell in the middle.
pub open spec fn arrival(near: Neumann<LangtonsAnt>) -> Option<Dir2D> {
    if comes_from(near, Dir2D::Up) {
        Some(Dir2D::Up)
    } else if comes_from(near, Dir2D::Right) {
        Some(Dir2D::Right)
    } else if comes_from(near, Dir2D::Down) {
        Some(Dir2D::Down)
    } else if comes_from(near, Dir2D::Left) {
        Some(Dir2D::Left)
    } else {
        None
    }
}

impl LangtonsAnt {
    /// A cell at `pos` with an ant on it that is headed up.
    pub fn new_ant(pos: &Pos2D) -> (cell: Self)
        ensures
            cell == (LangtonsAnt { color: true, dir: Some(Dir2D::Up), pos: *pos }),
    {
        LangtonsAnt { color: true, dir: Some(Dir2D::Up), pos: *pos }
    }

    /// The colour after the ant, if there is one, has left.
    pub open spec fn next_color(&self) -> bool {
        if self.dir.is_some() {
            !self.color
        } else {
            self.color
        }
    }

    /// The heading of the ant that arrives, if one does: it turns right on
    /// a cell of colour and left on one without.
    pub open spec fn next_dir(&self, near: Neumann<LangtonsAnt>) -> Option<Dir2D> {
        match arrival(near) {
            Some(ant_dir) => Some(
                if self.color {
                    ant_dir.spec_turn_right()
                } else {
                    ant_dir.spec_turn_left()
                },
            ),
            None => None,
        }
    }

    fn update_color(&self) -> (color: bool)
        ensures
            color == self.next_color(),
    {
        if self.dir.is_some() {
            !self.color
        } else {
            self.color
        }
    }

    fn update_dir<N: Neighborhood<Self>>(&self, neighborhood: &N) -> (dir: Option<Dir2D>)
        requires
            neighborhood.inhabited(),
        ensures
            dir == self.next_dir(
                neumann_of(neighborhood.lookup(), self.pos.x as int, self.pos.y as int),
            ),
    {
        let near = neighborhood.neumann(&self.pos);
        let heads_here = |d: Dir2D, c: &LangtonsAnt| -> (yes: bool)
            ensures
                yes == (c.dir == Some(d.spec_turn_around())),
            {
                match c.dir {
                    Some(c_dir) => c_dir == d.turn_around(),
                    None => false,
                }
            };
        match near.find(heads_here) {
            Some((ant_dir, _)) => {
                proof {
                    assert forall|before: Dir2D|
                        visit_rank(before) < visit_rank(ant_dir) implies !comes_from(
                        near,
                        before,
                    ) by {}
                    assert(visit_rank(Dir2D::Up) == 0 && visit_rank(Dir2D::Right) == 1
                        && visit_rank(Dir2D::Down) == 2 && visit_rank(Dir2D::Left) == 3);
                }
                Some(
                    if self.color {
                        ant_dir.turn_right()
                    } else {
                        ant_dir.turn_left()
                    },
                )
            },
            None => {
                None
            },
        }
    }
}

impl AutomatonCell for LangtonsAnt {
    open spec fn fresh(pos: Pos2D) -> Self {
        LangtonsAnt { color: false, dir: None, pos }
    }

    open spec fn place(&self) -> Pos2D {
        self.pos
    }

    open spec fn evolve(&self, around: spec_fn(int, int) -> Self) -> Self {
        LangtonsAnt {
            color: self.next_color(),
            dir: self.next_dir(neumann_of(around, self.pos.x as int, self.pos.y as int)),
            pos: self.pos,
        }
    }

    fn update<N: Neighborhood<Self>>(&self, neighborhood: &N) -> (next: Self) {
        LangtonsAnt {
            color: self.update_color(),
            dir: self.update_dir(neighborhood),
            pos: self.pos,
        }
    }

    fn position(&self) -> (pos: Pos2D) {
        self.pos
    }

    fn new(pos: &Pos2D) -> (cell: Self) {
        LangtonsAnt { color: false, dir: None, pos: *pos }
    }
}

} // verus!
