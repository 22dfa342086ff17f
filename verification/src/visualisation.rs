//! What a window shows of an automaton, and how the window drives it: the
//! cells as coloured squares, and the state that a tick, a click and the
//! space key change.

use crate::engine::automaton::{
    board_fits, flat_key, fresh_cells, patched, stepped, Automaton, AutomatonCell,
};
use crate::examples::game_of_life::GameOfLife;
use crate::examples::langtons_ant::LangtonsAnt;
use crate::fields::{Pos2D, RGB};
use vstd::prelude::*;

verus! {

/// A square of one colour at the place of a cell.
#[derive(Debug, Clone, Copy, PartialEq, Eq, Structural)]
pub struct CellRectangle {
    pub position: Pos2D,
    pub color: RGB,
}

/// A cell that can be shown, and that a click can put on the board.
pub trait CellVisualisation: AutomatonCell {
    /// The cell that `new_cell` makes.
    spec fn clicked(pos: Pos2D) -> Self;

    /// The square that `cell_to_rectangle` gives.
    spec fn shown(&self) -> CellRectangle;

    /// The cell that a click at `pos` puts there.
    fn new_cell(pos: &Pos2D) -> (cell: Self)
        ensures
            cell == Self::clicked(*pos),
    ;

    /// The square that shows the cell.
    fn cell_to_rectangle(&self) -> (square: CellRectangle)
        ensures
            square == self.shown(),
    ;
}

/// The colour of white, which is the colour of the background.
pub open spec fn background() -> RGB {
    RGB { r: 255, g: 255, b: 255 }
}

impl CellVisualisation for LangtonsAnt {
    open spec fn clicked(pos: Pos2D) -> Self {
        LangtonsAnt { color: true, dir: Some(crate::fields::Dir2D::Up), pos }
    }

    /// An ant is red; a cell without an ant is black if it has colour and
    /// white if it has none.
    open spec fn shown(&self) -> CellRectangle {
        CellRectangle {
            position: self.pos,
            color: match self.dir {
                None => if self.color {
                    RGB { r: 0, g: 0, b: 0 }
                } else {
                    RGB { r: 255, g: 255, b: 255 }
                },
                Some(_) => RGB { r: 255, g: 0, b: 0 },
            },
        }
    }

    fn new_cell(pos: &Pos2D) -> (cell: Self) {
        LangtonsAnt::new_ant(pos)
    }

    fn cell_to_rectangle(&self) -> (square: CellRectangle) {
        let position = self.pos;
        let color = match self.dir {
            None => {
                if self.color {
                    RGB::black()
                } else {
                    RGB::white()
                }
            },
            Some(_) => RGB::red(),
        };
        CellRectangle { position, color }
    }
}

impl CellVisualisation for GameOfLife {
    open spec fn clicked(pos: Pos2D) -> Self {
        GameOfLife { life: true, pos }
    }

    /// A live cell is black and a dead one white.
    open spec fn shown(&self) -> CellRectangle {
        CellRectangle {
            position: self.pos,
            color: if self.life {
                RGB { r: 0, g: 0, b: 0 }
            } else {
                RGB { r: 255, g: 255, b: 255 }
            },
        }
    }

    fn new_cell(pos: &Pos2D) -> (cell: Self) {
        GameOfLife::new_life(pos)
    }

    fn cell_to_rectangle(&self) -> (square: CellRectangle) {
        let position = self.pos;
        let color = if self.life {
            RGB::black()
        } else {
            RGB::white()
        };
        CellRectangle { position, color }
    }
}

/// The squares of the cells that are not of the colour of the background,
/// in the order of the cells.
pub open spec fn visible<C: CellVisualisation>(cells: Seq<C>) -> Seq<CellRectangle>
    decreases cells.len(),
{
    if cells.len() == 0 {
        Seq::empty()
    } else if cells.last().shown().color != background() {
        visible(cells.drop_last()).push(cells.last().shown())
    } else {
        visible(cells.drop_last())
    }
}

/// The state behind a window that shows an automaton.
pub struct MainState<C: CellVisualisation> {
    cell_size: usize,
    iteration: usize,
    pause: bool,
    auto: Automaton<C>,
}

impl<C: CellVisualisation> MainState<C> {
    /// The side of the square of a cell, in pixels.
    pub closed spec fn cell_size(&self) -> usize {
        self.cell_size
    }

    /// The number of ticks that were not paused.
    pub closed spec fn iteration(&self) -> usize {
        self.iteration
    }

    /// Whether the automaton stands still.
    pub closed spec fn paused(&self) -> bool {
        self.pause
    }

    /// The automaton that is shown.
    pub closed spec fn auto(&self) -> Automaton<C> {
        self.auto
    }

    /// The state for a window of `window_size` pixels a side over a new
    /// automaton of `dim` cells a side.
    pub fn new(window_size: usize, dim: usize) -> (state: MainState<C>)
        requires
            dim > 0,
            board_fits(dim),
        ensures
            state.cell_size() == window_size / dim,
            state.iteration() == 0,
            !state.paused(),
            state.auto().spec_dim() == dim,
            state.auto().cells() == fresh_cells::<C>(dim as int),
            state.auto().staged() == Map::<usize, C>::empty(),
    {
        MainState {
            iteration: 0,
            cell_size: window_size / dim,
            pause: false,
            auto: Automaton::<C>::new(dim),
        }
    }

    /// Stages the cell that a click makes at `pos`.
    pub fn add(&mut self, pos: &Pos2D)
        requires
            old(self).auto().spec_dim() > 0,
        ensures
            final(self).cell_size() == old(self).cell_size(),
            final(self).iteration() == old(self).iteration(),
            final(self).paused() == old(self).paused(),
            final(self).auto().spec_board() == old(self).auto().spec_board(),
            final(self).auto().staged() == old(self).auto().staged().insert(
                flat_key(
                    C::clicked(*pos).place().x as int,
                    C::clicked(*pos).place().y as int,
                    old(self).auto().spec_dim() as int,
                ) as usize,
                C::clicked(*pos),
            ),
    {
        self.auto.add_change(&C::new_cell(pos));
    }

    /// One tick: the automaton takes a step, but for the first tick, which
    /// leaves it as it was set up.
    pub fn update(&mut self)
        requires
            old(self).iteration() < usize::MAX,
        ensures
            final(self).cell_size() == old(self).cell_size(),
            final(self).paused() == old(self).paused(),
            final(self).iteration() == old(self).iteration() + 1,
            final(self).auto().spec_dim() == old(self).auto().spec_dim(),
            old(self).iteration() == 0 ==> final(self).auto() == old(self).auto(),
            old(self).iteration() > 0 ==> final(self).auto().cells() == stepped(
                patched(old(self).auto().cells(), old(self).auto().staged()),
                old(self).auto().spec_dim() as int,
            ) && final(self).auto().staged() == Map::<usize, C>::empty(),
    {
        if self.iteration > 0 {
            self.auto.next();
        }
        self.iteration += 1;
    }

    /// A tick of the window: a tick of the automaton unless it is paused.
    pub fn tick(&mut self)
        requires
            old(self).iteration() < usize::MAX,
        ensures
            final(self).cell_size() == old(self).cell_size(),
            final(self).paused() == old(self).paused(),
            final(self).auto().spec_dim() == old(self).auto().spec_dim(),
            old(self).paused() ==> *final(self) == *old(self),
            !old(self).paused() ==> final(self).iteration() == old(self).iteration() + 1,
            !old(self).paused() && old(self).iteration() == 0 ==> final(self).auto() == old(
                self,
            ).auto(),
            !old(self).paused() && old(self).iteration() > 0 ==> final(self).auto().cells()
                == stepped(
                patched(old(self).auto().cells(), old(self).auto().staged()),
                old(self).auto().spec_dim() as int,
            ) && final(self).auto().staged() == Map::<usize, C>::empty(),
    {
        if !self.pause {
            self.update();
        }
    }

    /// Whether the window is to be drawn anew.
    pub fn wants_draw(&self) -> (yes: bool)
        ensures
            yes == !self.paused(),
    {
        !self.pause
    }

    /// A click at the pixel `(x, y)`: the automaton is paused, and the cell
    /// that a click makes is put on the board at once, together with what
    /// was staged.
    pub fn click(&mut self, x: usize, y: usize) -> (pos: Pos2D)
        requires
            old(self).cell_size() > 0,
            old(self).auto().spec_dim() > 0,
            x / old(self).cell_size() <= i64::MAX,
            y / old(self).cell_size() <= i64::MAX,
        ensures
            pos == old(self).spec_pixels2pos(x, y),
            final(self).cell_size() == old(self).cell_size(),
            final(self).iteration() == old(self).iteration(),
            final(self).paused(),
            final(self).auto().spec_dim() == old(self).auto().spec_dim(),
            final(self).auto().staged() == Map::<usize, C>::empty(),
            final(self).auto().cells() == patched(
                old(self).auto().cells(),
                old(self).auto().staged().insert(
                    flat_key(
                        C::clicked(pos).place().x as int,
                        C::clicked(pos).place().y as int,
                        old(self).auto().spec_dim() as int,
                    ) as usize,
                    C::clicked(pos),
                ),
            ),
    {
        let pos = self.pixels2pos(x, y);
        self.pause = true;
        self.auto.add_change(&C::new_cell(&pos));
        self.auto.apply_changes();
        pos
    }

    /// A key was let go: the space key pauses the automaton or lets it run on.
    pub fn key_up(&mut self, space: bool)
        ensures
            final(self).cell_size() == old(self).cell_size(),
            final(self).iteration() == old(self).iteration(),
            final(self).auto() == old(self).auto(),
            final(self).paused() == if space {
                !old(self).paused()
            } else {
                old(self).paused()
            },
    {
        if space {
            self.pause = !self.pause;
        }
    }

    /// The squares to draw: those of the cells that are not white.
    pub fn auto2cells(&self) -> (squares: Vec<CellRectangle>)
        ensures
            squares@ == visible(self.auto().cells()),
    {
        let mut res: Vec<CellRectangle> = Vec::new();
        let mut it = self.auto.board_iter();
        let ghost cells = self.auto().cells();
        let ghost all = it@;
        let ghost mut done: int = 0;
        loop
            invariant
                all == Seq::new(cells.len(), |k: int| (k as usize, cells[k])),
                0 <= done <= all.len(),
                it@ == all.subrange(done, all.len() as int),
                res@ == visible(cells.take(done)),
            ensures
                done == all.len(),
            decreases all.len() - done,
        {
            match it.next() {
                Some(entry) => {
                    proof {
                        assert(all.subrange(done, all.len() as int).drop_first() =~= all.subrange(
                            done + 1,
                            all.len() as int,
                        ));
                        assert(cells.take(done + 1).drop_last() =~= cells.take(done));
                    }
                    let square = entry.1.cell_to_rectangle();
                    if square.color != RGB::white() {
                        res.push(square);
                    }
                    proof {
                        done = done + 1;
                    }
                },
                None => {
                    break ;
                },
            }
        }
        proof {
            assert(cells.take(cells.len() as int) =~= cells);
        }
        res
    }

    /// The position of the cell under the pixel `(x, y)`.
    pub open spec fn spec_pixels2pos(&self, x: usize, y: usize) -> Pos2D {
        Pos2D { x: (x / self.cell_size()) as i64, y: (y / self.cell_size()) as i64 }
    }

    /// The position of the cell under the pixel `(x, y)`.
    pub fn pixels2pos(&self, x: usize, y: usize) -> (pos: Pos2D)
        requires
            self.cell_size() > 0,
            x / self.cell_size() <= i64::MAX,
            y / self.cell_size() <= i64::MAX,
        ensures
            pos == self.spec_pixels2pos(x, y),
    {
        Pos2D::new((x / self.cell_size) as i64, (y / self.cell_size) as i64)
    }
}

} // verus!
