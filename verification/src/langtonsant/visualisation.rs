//! Boards as grids of characters.

use crate::engine::automaton::Board;
use crate::examples::langtons_ant::LangtonsAnt;
use crate::fields::Dir2D;
use vstd::prelude::*;

verus! {

/// Something that shows as a square grid of characters.
pub trait Visualisation {
    /// The characters of the grid, by flat key.
    spec fn spec_grid(&self) -> Seq<char>;

    /// The side of the grid.
    spec fn spec_side(&self) -> usize;

    /// The characters of the grid, by flat key, and its side.
    fn grid(&self) -> (shown: (Vec<char>, usize))
        ensures
            shown.0@ == self.spec_grid(),
            shown.1 == self.spec_side(),
    ;
}

/// The character for a cell of the colour `color` with an ant of the
/// heading `dir`: an arrow for an ant, `X` for a cell of colour and `_` for
/// one without.
pub open spec fn spec_to_char(color: bool, dir: Option<Dir2D>) -> char {
    match dir {
        None => if color {
            'X'
        } else {
            '_'
        },
        Some(Dir2D::Up) => '<',
        Some(Dir2D::Right) => 'v',
        Some(Dir2D::Down) => '>',
        Some(Dir2D::Left) => '^',
    }
}

/// The character for a cell of the colour `color` with an ant of the
/// heading `dir`.
#[verifier::when_used_as_spec(spec_to_char)]
pub fn to_char(color: bool, dir: Option<Dir2D>) -> (c: char)
    ensures
        c == spec_to_char(color, dir),
{
    match dir {
        None => {
            if color {
                'X'
            } else {
                '_'
            }
        },
        Some(Dir2D::Up) => '<',
        Some(Dir2D::Right) => 'v',
        Some(Dir2D::Down) => '>',
        Some(Dir2D::Left) => '^',
    }
}

/// The characters that `show` gives for the cells of the board, by flat key.
pub fn characters<C: Copy, F: Fn(&C) -> char>(board: &Board<C>, show: F) -> (shown: Vec<char>)
    requires
        forall|cell: &C| show.requires((cell,)),
    ensures
        shown@.len() == board@.len(),
        forall|k: int| 0 <= k < shown@.len() ==> show.ensures((&board@[k],), #[trigger] shown@[k]),
{
    let mut res: Vec<char> = Vec::new();
    let mut it = board.iter();
    let ghost all = it@;
    loop
        invariant
            forall|cell: &C| show.requires((cell,)),
            all == Seq::new(board@.len(), |k: int| (k as usize, board@[k])),
            res@.len() <= all.len(),
            it@ == all.subrange(res@.len() as int, all.len() as int),
            forall|k: int| 0 <= k < res@.len() ==> show.ensures((&board@[k],), #[trigger] res@[k]),
        ensures
            res@.len() == all.len(),
        decreases all.len() - res@.len(),
    {
        match it.next() {
            Some(entry) => {
                res.push(show(entry.1));
            },
            None => {
                break ;
            },
        }
    }
    res
}

impl Visualisation for Board<LangtonsAnt> {
    open spec fn spec_grid(&self) -> Seq<char> {
        Seq::new(self@.len(), |k: int| spec_to_char(self@[k].color, self@[k].dir))
    }

    open spec fn spec_side(&self) -> usize {
        self.spec_dim()
    }

    fn grid(&self) -> (shown: (Vec<char>, usize)) {
        let show = |cell: &LangtonsAnt| -> (c: char)
            ensures
                c == spec_to_char(cell.color, cell.dir),
            { to_char(cell.color, cell.dir) };
        let res = characters(self, show);
        (res, self.dim())
    }
}

} // verus!
