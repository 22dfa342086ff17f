//! Langton's ant with the turns the other way round: the ant turns left on
//! a cell of colour and right on one without.

use crate::engine::automaton::{neumann_of, AutomatonCell, Board, Neighborhood, Neumann};
use crate::fields::{Dir2D, Pos2D};
use crate::langtonsant::visualisation::{characters, spec_to_char, to_char, Visualisation};
use vstd::prelude::*;

verus! {

/// A cell with a colour that an ant may stand on. The ant has a heading.
#[derive(Copy, Clone, PartialEq, Debug)]
pub struct LAnt {
    pub color: bool,
    pub dir: Option<Dir2D>,
    pub pos: Pos2D,
}

/// The first direction, of up, right, down and left, in which the
/// neighbour holds an ant that is headed for the cell in the middle, given
/// the headings of the ants on the four neighbours.
pub open spec fn first_arrival(
    up: Option<Dir2D>,
    right: Option<Dir2D>,
    down: Option<Dir2D>,
    left: Option<Dir2D>,
) -> Option<Dir2D> {
    if up == Some(Dir2D::Down) {
        Some(Dir2D::Up)
    } else if right == Some(Dir2D::Left) {
        Some(Dir2D::Right)
    } else if down == Some(Dir2D::Up) {
        Some(Dir2D::Down)
    } else if left == Some(Dir2D::Right) {
        Some(Dir2D::Left)
    } else {
        None
    }
}

/// Whether `heading` is the heading `wanted`.
fn heads(heading: Option<Dir2D>, wanted: Dir2D) -> (yes: bool)
    ensures
        yes == (heading == Some(wanted)),
{
    match heading {
        Some(dir) => dir == wanted,
        None => false,
    }
}

impl LAnt {
    /// A cell at `pos` with an ant on it that is headed up.
    pub fn new_ant(pos: &Pos2D) -> (cell: Self)
        ensures
            cell == (LAnt { color: true, dir: Some(Dir2D::Up), pos: *pos }),
    {
        LAnt { color: true, dir: Some(Dir2D::Up), pos: *pos }
    }

    /// The colour after the ant, if there is one, has left.
    pub open spec fn next_color(&self) -> bool {
        if self.dir.is_some() {
            !self.color
        } else {
            self.color
        }
    }

    /// The heading of the ant that arrives, if one does: it turns left on a
    /// cell of colour and right on one without.
    pub open spec fn next_dir(&self, near: Neumann<LAnt>) -> Option<Dir2D> {
        match first_arrival(near.up.dir, near.right.dir, near.down.dir, near.left.dir) {
            Some(ant_dir) => Some(
                if self.color {
                    ant_dir.spec_turn_left()
                } else {
                    ant_dir.spec_turn_right()
                },
            ),
            None => None,
        }
    }

    fn update_color(&self) -> (color: bool)
        ensures
            color == self.next_color(),
    {
        if self.dir.is_some() {
            !self.color
        } else {
            self.color
        }
    }

    fn update_dir<N: Neighborhood<Self>>(&self, neighborhood: &N) -> (dir: Option<Dir2D>)
        requires
            neighborhood.inhabited(),
        ensures
            dir == self.next_dir(
                neumann_of(neighborhood.lookup(), self.pos.x as int, self.pos.y as int),
            ),
    {
        let near = neighborhood.neumann(&self.pos);
        let found = if heads(near.up.dir, Dir2D::Down) {
            Some(Dir2D::Up)
        } else if heads(near.right.dir, Dir2D::Left) {
            Some(Dir2D::Right)
        } else if heads(near.down.dir, Dir2D::Up) {
            Some(Dir2D::Down)
        } else if heads(near.left.dir, Dir2D::Right) {
            Some(Dir2D::Left)
        } else {
            None
        };
        match found {
            Some(ant_dir) => Some(
                if self.color {
                    ant_dir.turn_left()
                } else {
                    ant_dir.turn_right()
                },
            ),
            None => None,
        }
    }
}

impl AutomatonCell for LAnt {
    open spec fn fresh(pos: Pos2D) -> Self {
        LAnt { color: false, dir: None, pos }
    }

    open spec fn place(&self) -> Pos2D {
        self.pos
    }

    open spec fn evolve(&self, around: spec_fn(int, int) -> Self) -> Self {
        LAnt {
            color: self.next_color(),
            dir: self.next_dir(neumann_of(around, self.pos.x as int, self.pos.y as int)),
            pos: self.pos,
        }
    }

    fn update<N: Neighborhood<Self>>(&self, neighborhood: &N) -> (next: Self) {
        LAnt { color: self.update_color(), dir: self.update_dir(neighborhood), pos: self.pos }
    }

    fn position(&self) -> (pos: Pos2D) {
        self.pos
    }

    fn new(pos: &Pos2D) -> (cell: Self) {
        LAnt { color: false, dir: None, pos: *pos }
    }
}

impl Visualisation for Board<LAnt> {
    open spec fn spec_grid(&self) -> Seq<char> {
        Seq::new(self@.len(), |k: int| spec_to_char(self@[k].color, self@[k].dir))
    }

    open spec fn spec_side(&self) -> usize {
        self.spec_dim()
    }

    fn grid(&self) -> (shown: (Vec<char>, usize)) {
        let show = |cell: &LAnt| -> (c: char)
            ensures
                c == spec_to_char(cell.color, cell.dir),
            { to_char(cell.color, cell.dir) };
        let res = characters(self, show);
        (res, self.dim())
    }
}

} // verus!
