//! A board of cells on a torus and the automaton that advances it.
//!
//! The cells of a board of side `dim` are kept by flat key: the cell at
//! `(x, y)` has the key `wrap(x) * dim + wrap(y)`. The abstract value of a
//! board is the sequence of its cells by flat key.

use crate::fields::{block, Dir2D, Pos2D};
use crate::utils::umap::{lists_entries, UMap, UMapIter};
use vstd::arithmetic::div_mod::{
    lemma_add_mod_noop_right, lemma_fundamental_div_mod, lemma_fundamental_div_mod_converse,
    lemma_small_mod,
};
use vstd::prelude::*;

verus! {

/// The coordinate `i` folded into `0..dim`.
pub open spec fn spec_wrap(i: int, dim: int) -> int {
    i % dim
}

/// The flat key of the position `(x, y)` on a board of side `dim`.
pub open spec fn flat_key(x: int, y: int, dim: int) -> int {
    spec_wrap(x, dim) * dim + spec_wrap(y, dim)
}

/// A flat key is smaller than the number of cells.
pub proof fn lemma_flat_key_bound(x: int, y: int, dim: int)
    requires
        dim > 0,
    ensures
        0 <= flat_key(x, y, dim) < dim * dim,
        0 <= spec_wrap(x, dim) < dim,
        0 <= spec_wrap(y, dim) < dim,
{
    let a = spec_wrap(x, dim);
    let b = spec_wrap(y, dim);
    assert(0 <= a * dim + b < dim * dim) by (nonlinear_arith)
        requires
            0 <= a < dim,
            0 <= b < dim,
    ;
}

/// The coordinate `i` folded into `0..dim`.
pub fn wrap(i: i64, dim: usize) -> (w: usize)
    requires
        0 < dim <= i64::MAX,
    ensures
        w == spec_wrap(i as int, dim as int),
        w < dim,
{
    let side = dim as i64;
    if i >= 0 {
        (i % side) as usize
    } else {
        // `i + 1` is not positive, so `-(i + 1)` cannot overflow
        let back = (-(i + 1)) % side;
        proof {
            let q = (-(i + 1)) / (side as int);
            lemma_fundamental_div_mod(-(i + 1), side as int);
            assert(i == (-q - 1) * side + (side - 1 - back)) by (nonlinear_arith)
                requires
                    -(i + 1) == side * q + back,
            ;
            lemma_fundamental_div_mod_converse(i as int, side as int, -q - 1, side - 1 - back);
        }
        (side - 1 - back) as usize
    }
}

/// A board of side `dim` has few enough cells that every flat key fits in
/// `usize` and every coordinate in `i64`.
pub open spec fn board_fits(dim: usize) -> bool {
    dim * dim <= i64::MAX && dim * dim <= usize::MAX
}

/// The flat key of `pos` on a board of side `dim`.
pub fn get_id(dim: usize, pos: &Pos2D) -> (id: usize)
    requires
        0 < dim,
        board_fits(dim),
    ensures
        id == flat_key(pos.x as int, pos.y as int, dim as int),
        id < dim * dim,
{
    assert(dim <= i64::MAX) by (nonlinear_arith)
        requires
            dim * dim <= i64::MAX,
            dim > 0,
    ;
    let column = wrap(pos.x, dim);
    let row = wrap(pos.y, dim);
    assert(0 <= column * dim && column * dim + row < dim * dim) by (nonlinear_arith)
        requires
            0 <= column < dim,
            0 <= row < dim,
    ;
    column * dim + row
}

/// Moving on before folding a coordinate is moving on after folding it.
pub proof fn lemma_wrap_shift(i: int, by: int, dim: int)
    requires
        dim > 0,
    ensures
        spec_wrap(spec_wrap(i, dim) + by, dim) == spec_wrap(i + by, dim),
{
    lemma_add_mod_noop_right(by, i, dim);
}

/// The position whose flat key on a board of side `dim` is `key`.
pub open spec fn position_of(key: int, dim: int) -> Pos2D {
    Pos2D { x: (key / dim) as i64, y: (key % dim) as i64 }
}

/// Every key below `dim * dim` is the flat key of its position.
pub proof fn lemma_position_key(key: int, dim: int)
    requires
        dim > 0,
        0 <= key < dim * dim,
    ensures
        0 <= key / dim < dim,
        0 <= key % dim < dim,
        flat_key(key / dim, key % dim, dim) == key,
{
    lemma_fundamental_div_mod(key, dim);
    let q = key / dim;
    let r = key % dim;
    assert(0 <= q < dim) by (nonlinear_arith)
        requires
            key == dim * q + r,
            0 <= r < dim,
            0 <= key < dim * dim,
            dim > 0,
    ;
    lemma_small_mod(q as nat, dim as nat);
    lemma_small_mod(r as nat, dim as nat);
    assert(q * dim == dim * q) by (nonlinear_arith);
}

/// The cells next to a position in the four directions.
#[derive(Debug)]
pub struct Neumann<C> {
    pub up: C,
    pub right: C,
    pub down: C,
    pub left: C,
}

impl<C: Copy> Neumann<C> {
    pub open spec fn spec_at(&self, dir: Dir2D) -> C {
        match dir {
            Dir2D::Up => self.up,
            Dir2D::Right => self.right,
            Dir2D::Down => self.down,
            Dir2D::Left => self.left,
        }
    }

    /// The neighbour in the direction `dir`.
    #[verifier::when_used_as_spec(spec_at)]
    pub fn at(&self, dir: Dir2D) -> (cell: C)
        ensures
            cell == self.spec_at(dir),
    {
        match dir {
            Dir2D::Up => self.up,
            Dir2D::Right => self.right,
            Dir2D::Down => self.down,
            Dir2D::Left => self.left,
        }
    }
}

/// The place of a direction in the order in which neighbours are visited:
/// up, right, down, left.
pub open spec fn visit_rank(dir: Dir2D) -> int {
    match dir {
        Dir2D::Up => 0,
        Dir2D::Right => 1,
        Dir2D::Down => 2,
        Dir2D::Left => 3,
    }
}

impl<C: Copy> Neumann<C> {
    /// The first neighbour, of those up, right, down and left, that `pred`
    /// accepts, with its direction.
    pub fn find<F: Fn(Dir2D, &C) -> bool>(&self, pred: F) -> (found: Option<(Dir2D, C)>)
        requires
            forall|dir: Dir2D, cell: &C| pred.requires((dir, cell)),
        ensures
            match found {
                Some((dir, cell)) => {
                    &&& cell == self.spec_at(dir)
                    &&& pred.ensures((dir, &cell), true)
                    &&& forall|before: Dir2D|
                        visit_rank(before) < visit_rank(dir) ==> pred.ensures(
                            (before, &self.spec_at(before)),
                            false,
                        )
                },
                None => forall|dir: Dir2D| pred.ensures((dir, &self.spec_at(dir)), false),
            },
    {
        if pred(Dir2D::Up, &self.up) {
            Some((Dir2D::Up, self.up))
        } else if pred(Dir2D::Right, &self.right) {
            Some((Dir2D::Right, self.right))
        } else if pred(Dir2D::Down, &self.down) {
            Some((Dir2D::Down, self.down))
        } else if pred(Dir2D::Left, &self.left) {
            Some((Dir2D::Left, self.left))
        } else {
            None
        }
    }
}

/// The four neighbours of `(x, y)` as `around` finds them.
pub open spec fn neumann_of<C>(around: spec_fn(int, int) -> C, x: int, y: int) -> Neumann<C> {
    Neumann {
        up: around(x, y - 1),
        right: around(x + 1, y),
        down: around(x, y + 1),
        left: around(x - 1, y),
    }
}

/// The eight neighbours of `(x, y)` as `around` finds them, clockwise from
/// the one above.
pub open spec fn moore_of<C>(around: spec_fn(int, int) -> C, x: int, y: int) -> Seq<C> {
    seq![
        around(x, y - 1),
        around(x + 1, y - 1),
        around(x + 1, y),
        around(x + 1, y + 1),
        around(x, y + 1),
        around(x - 1, y + 1),
        around(x - 1, y),
        around(x - 1, y - 1),
    ]
}

/// A view of the cells of one generation, by position.
pub trait Neighborhood<C> {
    /// Whether there are cells to look up.
    spec fn inhabited(&self) -> bool;

    /// The cell that each position leads to.
    spec fn lookup(&self) -> spec_fn(int, int) -> C;

    fn find_cell(&self, pos: &Pos2D) -> (cell: &C)
        requires
            self.inhabited(),
        ensures
            *cell == (self.lookup())(pos.x as int, pos.y as int),
    ;

    /// The neighbours of `pos` in the four directions.
    fn neumann(&self, pos: &Pos2D) -> (near: Neumann<C>)
        requires
            self.inhabited(),
        ensures
            near == neumann_of(self.lookup(), pos.x as int, pos.y as int),
    ;

    /// The eight neighbours of `pos`, clockwise from the one above.
    fn moore(&self, pos: &Pos2D) -> (near: Vec<C>)
        requires
            self.inhabited(),
        ensures
            near@ == moore_of(self.lookup(), pos.x as int, pos.y as int),
    ;
}

/// What a cell has to offer to be run by the automaton. The next state of
/// a cell is a function of the cell and of the cells around it.
pub trait AutomatonCell: Copy + Sized {
    /// The cell that `new` makes.
    spec fn fresh(pos: Pos2D) -> Self;

    /// The position that `position` gives.
    spec fn place(&self) -> Pos2D;

    /// The next state of the cell among the cells that `around` leads to.
    spec fn evolve(&self, around: spec_fn(int, int) -> Self) -> Self;

    fn update<N: Neighborhood<Self>>(&self, neighborhood: &N) -> (next: Self)
        requires
            neighborhood.inhabited(),
        ensures
            next == self.evolve(neighborhood.lookup()),
    ;

    fn position(&self) -> (pos: Pos2D)
        ensures
            pos == self.place(),
    ;

    fn new(pos: &Pos2D) -> (cell: Self)
        ensures
            cell == Self::fresh(*pos),
    ;
}

/// The lookup by position into the cells of a board of side `dim`.
pub open spec fn torus<C>(cells: Seq<C>, dim: int) -> spec_fn(int, int) -> C {
    |x: int, y: int| cells[flat_key(x, y, dim)]
}

/// The next generation of the cells of a board of side `dim`: every cell
/// evolves among the cells of this generation.
pub open spec fn stepped<C: AutomatonCell>(cells: Seq<C>, dim: int) -> Seq<C> {
    Seq::new(cells.len(), |k: int| cells[k].evolve(torus(cells, dim)))
}

/// The cells with those replaced that `changes` has a value for.
pub open spec fn patched<C>(cells: Seq<C>, changes: Map<usize, C>) -> Seq<C> {
    Seq::new(
        cells.len(),
        |k: int|
            if changes.contains_key(k as usize) {
                changes[k as usize]
            } else {
                cells[k]
            },
    )
}

/// The cells with each of `news` put in the place of the cell at its
/// position, one after the other.
pub open spec fn overwritten<C: AutomatonCell>(cells: Seq<C>, dim: int, news: Seq<C>) -> Seq<C>
    decreases news.len(),
{
    if news.len() == 0 {
        cells
    } else {
        let at = news.last().place();
        overwritten(cells, dim, news.drop_last()).update(
            flat_key(at.x as int, at.y as int, dim),
            news.last(),
        )
    }
}

/// The cells of a new board: a fresh cell at every position.
pub open spec fn fresh_cells<C: AutomatonCell>(dim: int) -> Seq<C> {
    Seq::new((dim * dim) as nat, |k: int| C::fresh(position_of(k, dim)))
}

/// The keys of a board of side `dim`.
pub open spec fn board_keys(dim: usize) -> Set<usize> {
    Set::new(|k: usize| k < dim * dim)
}

/// A square board with wrapped edges that holds a cell at every position.
pub struct Board<C> {
    dim: usize,
    map: UMap<C>,
}

impl<C> View for Board<C> {
    type V = Seq<C>;

    closed spec fn view(&self) -> Seq<C> {
        Seq::new((self.dim * self.dim) as nat, |k: int| self.map@[k as usize])
    }
}

impl<C> Board<C> {
    #[verifier::type_invariant]
    spec fn inv(self) -> bool {
        board_fits(self.dim) && self.map@.dom() == board_keys(self.dim)
    }

    /// The side of the board.
    pub closed spec fn spec_dim(&self) -> usize {
        self.dim
    }

    /// A board has a cell for every position.
    pub proof fn lemma_size(self)
        ensures
            self@.len() == self.spec_dim() * self.spec_dim(),
    {
    }

    /// The side of the board.
    pub fn dim(&self) -> (dim: usize)
        ensures
            dim == self.spec_dim(),
            board_fits(dim),
            self@.len() == dim * dim,
    {
        proof {
            use_type_invariant(self);
        }
        self.dim
    }

    /// A cursor over the cells with their flat keys, in ascending order.
    pub fn iter(&self) -> (it: UMapIter<'_, C>)
        ensures
            it@ == Seq::new(self@.len(), |k: int| (k as usize, self@[k])),
    {
        proof {
            use_type_invariant(self);
        }
        let it = self.map.iter();
        proof {
            lemma_board_listing(self.map@, self.dim, it@);
        }
        it
    }
}

impl<C> Default for Board<C> {
    /// A board without cells.
    fn default() -> (board: Self)
        ensures
            board.spec_dim() == 0,
            board@ == Seq::<C>::empty(),
    {
        let map = UMap::<C>::default();
        proof {
            assert(map@.dom() =~= board_keys(0));
        }
        let board = Board { dim: 0, map };
        board
    }
}

impl<C: Copy> Clone for Board<C> {
    fn clone(&self) -> (board: Self)
        ensures
            board.spec_dim() == self.spec_dim(),
            board@ == self@,
    {
        proof {
            use_type_invariant(self);
        }
        let board = Board { dim: self.dim, map: self.map.copied() };
        board
    }
}

/// The ascending listing of a map with the keys of a board has the entry
/// of key `k` in place `k`.
proof fn lemma_board_listing<C>(map: Map<usize, C>, dim: usize, listing: Seq<(usize, C)>)
    requires
        map.dom() == board_keys(dim),
        dim * dim <= usize::MAX,
        lists_entries(map, listing),
    ensures
        listing == Seq::new((dim * dim) as nat, |k: int| (k as usize, map[k as usize])),
{
    let keys = listing.map_values(|entry: (usize, C)| entry.0);
    let count = Seq::new((dim * dim) as nat, |k: int| k as usize);
    assert forall|k: usize| map.dom().contains(k) <==> count.contains(k) by {
        if map.dom().contains(k) {
            assert(count[k as int] == k);
        }
    }
    crate::utils::window::lemma_lists_unique(map.dom(), keys, count);
    assert forall|k: int| 0 <= k < listing.len() implies listing[k] == (k as usize, map[k as usize]) by {
        assert(keys[k] == listing[k].0);
    }
}

impl<C: Copy> Neighborhood<C> for Board<C> {
    open spec fn inhabited(&self) -> bool {
        self.spec_dim() > 0
    }

    open spec fn lookup(&self) -> spec_fn(int, int) -> C {
        torus(self@, self.spec_dim() as int)
    }

    fn find_cell(&self, pos: &Pos2D) -> (cell: &C) {
        proof {
            use_type_invariant(self);
        }
        let id = get_id(self.dim, pos);
        self.map.get_ref(id).unwrap()
    }

    fn neumann(&self, pos: &Pos2D) -> (near: Neumann<C>) {
        let base = self.fold(pos);
        proof {
            let dim = self.spec_dim() as int;
            lemma_wrap_shift(pos.x as int, 1, dim);
            lemma_wrap_shift(pos.x as int, -1, dim);
            lemma_wrap_shift(pos.x as int, 0, dim);
            lemma_wrap_shift(pos.y as int, 1, dim);
            lemma_wrap_shift(pos.y as int, -1, dim);
            lemma_wrap_shift(pos.y as int, 0, dim);
        }
        Neumann {
            up: *self.find_cell(&base.move_by_one(Dir2D::Up)),
            right: *self.find_cell(&base.move_by_one(Dir2D::Right)),
            down: *self.find_cell(&base.move_by_one(Dir2D::Down)),
            left: *self.find_cell(&base.move_by_one(Dir2D::Left)),
        }
    }

    fn moore(&self, pos: &Pos2D) -> (near: Vec<C>) {
        let base = self.fold(pos);
        proof {
            let dim = self.spec_dim() as int;
            lemma_wrap_shift(pos.x as int, 1, dim);
            lemma_wrap_shift(pos.x as int, -1, dim);
            lemma_wrap_shift(pos.x as int, 0, dim);
            lemma_wrap_shift(pos.y as int, 1, dim);
            lemma_wrap_shift(pos.y as int, -1, dim);
            lemma_wrap_shift(pos.y as int, 0, dim);
        }
        let mut near: Vec<C> = Vec::with_capacity(8);
        near.push(*self.find_cell(&Pos2D::new(base.x, base.y - 1)));
        near.push(*self.find_cell(&Pos2D::new(base.x + 1, base.y - 1)));
        near.push(*self.find_cell(&Pos2D::new(base.x + 1, base.y)));
        near.push(*self.find_cell(&Pos2D::new(base.x + 1, base.y + 1)));
        near.push(*self.find_cell(&Pos2D::new(base.x, base.y + 1)));
        near.push(*self.find_cell(&Pos2D::new(base.x - 1, base.y + 1)));
        near.push(*self.find_cell(&Pos2D::new(base.x - 1, base.y)));
        near.push(*self.find_cell(&Pos2D::new(base.x - 1, base.y - 1)));
        near
    }
}

impl<C: Copy> Board<C> {
    /// The position on the board that `pos` leads to.
    fn fold(&self, pos: &Pos2D) -> (base: Pos2D)
        requires
            self.spec_dim() > 0,
        ensures
            base.x == spec_wrap(pos.x as int, self.spec_dim() as int),
            base.y == spec_wrap(pos.y as int, self.spec_dim() as int),
            0 <= base.x < self.spec_dim() <= i64::MAX,
            0 <= base.y < self.spec_dim(),
    {
        proof {
            use_type_invariant(self);
        }
        assert(self.dim <= i64::MAX) by (nonlinear_arith)
            requires
                self.dim * self.dim <= i64::MAX,
                self.dim > 0,
        ;
        Pos2D::new(wrap(pos.x, self.dim) as i64, wrap(pos.y, self.dim) as i64)
    }
}

impl<C: AutomatonCell> Board<C> {
    /// The flat key of `pos` on a board of side `dim`.
    pub fn pos2id(dim: usize, pos: &Pos2D) -> (id: usize)
        requires
            0 < dim,
            board_fits(dim),
        ensures
            id == flat_key(pos.x as int, pos.y as int, dim as int),
            id < dim * dim,
    {
        get_id(dim, pos)
    }

    /// A board of side `dim` with a fresh cell at every position.
    pub fn new(dim: usize) -> (board: Self)
        requires
            board_fits(dim),
        ensures
            board.spec_dim() == dim,
            board@ == fresh_cells::<C>(dim as int),
    {
        let mut map = UMap::<C>::with_capacity(dim);
        let all = Pos2D::from_dim(dim);
        let mut n: usize = 0;
        while n < all.len()
            invariant
                board_fits(dim),
                all@ == block(0, 0, dim as int, dim as int),
                n <= all@.len() == dim * dim,
                map@.dom() == Set::new(|k: usize| k < n),
                forall|k: usize| k < n ==> map@[k] == C::fresh(position_of(k as int, dim as int)),
            decreases all@.len() - n,
        {
            proof {
                assert(dim > 0) by (nonlinear_arith)
                    requires
                        n < dim * dim,
                ;
                assert(dim <= i64::MAX) by (nonlinear_arith)
                    requires
                        dim * dim <= i64::MAX,
                        dim > 0,
                ;
                lemma_position_key(n as int, dim as int);
            }
            let id = Self::pos2id(dim, &all[n]);
            map.put(id, C::new(&all[n]));
            n += 1;
        }
        let board = Board { dim, map };
        board
    }

    /// The next generation: every cell updated among the cells of this one.
    pub fn update(&self) -> (next: Self)
        ensures
            next.spec_dim() == self.spec_dim(),
            next@ == stepped(self@, self.spec_dim() as int),
    {
        proof {
            use_type_invariant(self);
        }
        let mut map = UMap::<C>::with_capacity(self.dim);
        let all = Pos2D::from_dim(self.dim);
        let mut n: usize = 0;
        while n < all.len()
            invariant
                self.inv(),
                all@ == block(0, 0, self.dim as int, self.dim as int),
                n <= all@.len() == self.dim * self.dim,
                map@.dom() == Set::new(|k: usize| k < n),
                forall|k: usize|
                    k < n ==> map@[k] == self@[k as int].evolve(
                        torus(self@, self.spec_dim() as int),
                    ),
            decreases all@.len() - n,
        {
            proof {
                assert(self.dim > 0) by (nonlinear_arith)
                    requires
                        n < self.dim * self.dim,
                ;
                assert(self.dim <= i64::MAX) by (nonlinear_arith)
                    requires
                        self.dim * self.dim <= i64::MAX,
                        self.dim > 0,
                ;
                lemma_position_key(n as int, self.dim as int);
            }
            let id = Self::pos2id(self.dim, &all[n]);
            match self.map.get_ref(id) {
                Some(cell) => {
                    let updated = cell.update(self);
                    map.put(id, updated);
                },
                None => {},
            }
            n += 1;
        }
        let next = Board { dim: self.dim, map };
        next
    }

    /// A copy of the board with what `f` makes of the cell at `position` in
    /// its place. A position that is not on the board, which has the
    /// coordinates from 0 up to `dim`, changes nothing.
    pub fn change_one<F: Fn(&C) -> C>(&self, position: &Pos2D, f: F) -> (board: Self)
        requires
            forall|k: int|
                0 <= k < self@.len() && position_of(k, self.spec_dim() as int) == *position
                    ==> f.requires((&#[trigger] self@[k],)),
        ensures
            board.spec_dim() == self.spec_dim(),
            board@.len() == self@.len(),
            forall|k: int|
                0 <= k < self@.len() ==> if position_of(k, self.spec_dim() as int) == *position {
                    f.ensures((&self@[k],), #[trigger] board@[k])
                } else {
                    board@[k] == self@[k]
                },
    {
        proof {
            use_type_invariant(self);
        }
        let mut map = UMap::<C>::with_capacity(self.dim);
        let all = Pos2D::from_dim(self.dim);
        let mut n: usize = 0;
        while n < all.len()
            invariant
                self.inv(),
                all@ == block(0, 0, self.dim as int, self.dim as int),
                n <= all@.len() == self.dim * self.dim,
                forall|k: int|
                    0 <= k < self@.len() && position_of(k, self.spec_dim() as int) == *position
                        ==> f.requires((&#[trigger] self@[k],)),
                map@.dom() == Set::new(|k: usize| k < n),
                forall|k: usize|
                    k < n ==> if position_of(k as int, self.spec_dim() as int) == *position {
                        f.ensures((&self@[k as int],), #[trigger] map@[k])
                    } else {
                        map@[k] == self@[k as int]
                    },
            decreases all@.len() - n,
        {
            proof {
                assert(self.dim > 0) by (nonlinear_arith)
                    requires
                        n < self.dim * self.dim,
                ;
                assert(self.dim <= i64::MAX) by (nonlinear_arith)
                    requires
                        self.dim * self.dim <= i64::MAX,
                        self.dim > 0,
                ;
                lemma_position_key(n as int, self.dim as int);
            }
            let pos = all[n];
            let id = Self::pos2id(self.dim, &pos);
            match self.map.get_ref(id) {
                Some(cell) => {
                    if pos.x == position.x && pos.y == position.y {
                        proof {
                            assert(position_of(n as int, self.spec_dim() as int) == *position);
                        }
                        map.put(id, f(cell));
                    } else {
                        map.put(id, *cell);
                    }
                },
                None => {},
            }
            n += 1;
        }
        Board { dim: self.dim, map }
    }

    /// Whether the board has a cell with the flat key `index` that `pred` accepts.
    pub fn exists_cell<F: Fn(&C) -> bool>(&self, index: usize, pred: F) -> (yes: bool)
        requires
            index < self@.len() ==> pred.requires((&self@[index as int],)),
        ensures
            if index < self@.len() {
                pred.ensures((&self@[index as int],), yes)
            } else {
                !yes
            },
    {
        proof {
            use_type_invariant(self);
        }
        match self.map.get_ref(index) {
            Some(cell) => pred(cell),
            None => false,
        }
    }

    /// A copy of the board with `new_cell` in the place of the cell at its position.
    pub fn copy_and_update_one(&self, new_cell: &C) -> (board: Self)
        requires
            self.spec_dim() > 0,
        ensures
            board.spec_dim() == self.spec_dim(),
            board@ == self@.update(
                flat_key(
                    new_cell.place().x as int,
                    new_cell.place().y as int,
                    self.spec_dim() as int,
                ),
                *new_cell,
            ),
    {
        let cells = [*new_cell];
        proof {
            let news = cells@;
            assert(overwritten(self@, self.spec_dim() as int, news.drop_last()) == self@);
        }
        self.copy_and_update(cells.as_slice())
    }

    /// A copy of the board with each of `cells` put in the place of the cell
    /// at its position, one after the other.
    pub fn copy_and_update(&self, cells: &[C]) -> (board: Self)
        requires
            cells@.len() > 0 ==> self.spec_dim() > 0,
        ensures
            board.spec_dim() == self.spec_dim(),
            board@ == overwritten(self@, self.spec_dim() as int, cells@),
    {
        proof {
            use_type_invariant(self);
        }
        let mut map = self.copy_cells();
        let ghost dim = self.spec_dim() as int;
        let mut n: usize = 0;
        while n < cells.len()
            invariant
                self.inv(),
                dim == self.dim,
                cells@.len() > 0 ==> self.dim > 0,
                n <= cells@.len(),
                map@.dom() == board_keys(self.dim),
                forall|k: usize|
                    k < self.dim * self.dim ==> map@[k] == overwritten(
                        self@,
                        dim,
                        cells@.take(n as int),
                    )[k as int],
                overwritten(self@, dim, cells@.take(n as int)).len() == self.dim * self.dim,
            decreases cells@.len() - n,
        {
            let c = cells[n];
            let at = c.position();
            let id = Self::pos2id(self.dim, &at);
            proof {
                assert(cells@.take(n + 1).drop_last() =~= cells@.take(n as int));
            }
            map.put(id, c);
            n += 1;
        }
        proof {
            assert(cells@.take(cells@.len() as int) =~= cells@);
        }
        let board = Board { dim: self.dim, map };
        board
    }

    /// A copy of the board with the cells of `cells` in the place of those
    /// with the same flat keys.
    pub fn copy_and_update_2(&self, cells: &UMap<C>) -> (board: Self)
        requires
            forall|k: usize| cells@.contains_key(k) ==> k < self.spec_dim() * self.spec_dim(),
        ensures
            board.spec_dim() == self.spec_dim(),
            board@ == patched(self@, cells@),
    {
        proof {
            use_type_invariant(self);
        }
        let mut map = self.copy_cells();
        let mut it = cells.iter();
        let ghost all = it@;
        let ghost done: int = 0;
        loop
            invariant
                self.inv(),
                lists_entries(cells@, all),
                0 <= done <= all.len(),
                it@ == all.subrange(done, all.len() as int),
                forall|k: usize| cells@.contains_key(k) ==> k < self.dim * self.dim,
                map@.dom() == board_keys(self.dim),
                forall|k: usize|
                    k < self.dim * self.dim ==> map@[k] == if exists|i: int|
                        0 <= i < done && (#[trigger] all[i]).0 == k {
                        cells@[k]
                    } else {
                        self@[k as int]
                    },
            ensures
                done == all.len(),
            decreases all.len() - done,
        {
            match it.next() {
                Some(entry) => {
                    let id = entry.0;
                    let cell = *entry.1;
                    proof {
                        assert(all.subrange(done, all.len() as int).drop_first() =~= all.subrange(
                            done + 1,
                            all.len() as int,
                        ));
                        let keys = all.map_values(|e: (usize, C)| e.0);
                        assert(keys[done] == id);
                        assert(cells@.contains_key(id));
                    }
                    map.put(id, cell);
                    proof {
                        assert forall|k: usize| k < self.dim * self.dim implies map@[k] == if exists|
                            i: int,
                        |
                            0 <= i < done + 1 && (#[trigger] all[i]).0 == k {
                            cells@[k]
                        } else {
                            self@[k as int]
                        } by {}
                        done = done + 1;
                    }
                },
                None => {
                    break ;
                },
            }
        }
        let board = Board { dim: self.dim, map };
        proof {
            let keys = all.map_values(|e: (usize, C)| e.0);
            assert forall|k: int| 0 <= k < board@.len() implies board@[k] == patched(
                self@,
                cells@,
            )[k] by {
                let key = k as usize;
                if cells@.contains_key(key) {
                } else {
                    if exists|i: int| 0 <= i < done && (#[trigger] all[i]).0 == key {
                        let i = choose|i: int| 0 <= i < done && (#[trigger] all[i]).0 == key;
                        assert(keys[i] == key);
                    }
                }
            }
        }
        board
    }

    /// The cells of the board, copied into a map of their own.
    fn copy_cells(&self) -> (map: UMap<C>)
        ensures
            map@.dom() == board_keys(self.spec_dim()),
            forall|k: usize| k < self.spec_dim() * self.spec_dim() ==> map@[k] == self@[k as int],
    {
        proof {
            use_type_invariant(self);
        }
        self.map.copied()
    }
}

/// A board together with the changes staged for it. A staged change
/// replaces a cell of the board when the changes are applied, which `next`
/// does before it steps the board.
pub struct Automaton<C> {
    board: Board<C>,
    changes: UMap<C>,
}

impl<C> Automaton<C> {
    #[verifier::type_invariant]
    spec fn inv(self) -> bool {
        forall|k: usize|
            self.changes@.contains_key(k) ==> k < self.board.spec_dim() * self.board.spec_dim()
    }

    /// The board of the automaton.
    pub closed spec fn spec_board(&self) -> Board<C> {
        self.board
    }

    /// The cells of the board, by flat key.
    pub open spec fn cells(&self) -> Seq<C> {
        self.spec_board()@
    }

    /// The side of the board.
    pub open spec fn spec_dim(&self) -> usize {
        self.spec_board().spec_dim()
    }

    /// The staged changes, by flat key.
    pub closed spec fn staged(&self) -> Map<usize, C> {
        self.changes@
    }

    /// The side of the board.
    pub fn dim(&self) -> (dim: usize)
        ensures
            dim == self.spec_dim(),
            board_fits(dim),
            self.cells().len() == dim * dim,
    {
        self.board.dim()
    }

    /// The board of the automaton.
    pub fn board(&self) -> (board: &Board<C>)
        ensures
            *board == self.spec_board(),
    {
        &self.board
    }

    /// A cursor over the cells of the board with their flat keys, in
    /// ascending order.
    pub fn board_iter(&self) -> (it: UMapIter<'_, C>)
        ensures
            it@ == Seq::new(self.cells().len(), |k: int| (k as usize, self.cells()[k])),
    {
        self.board.iter()
    }
}

impl<C> Default for Automaton<C> {
    /// An automaton with a board without cells and nothing staged.
    fn default() -> (automaton: Self)
        ensures
            automaton.spec_dim() == 0,
            automaton.cells() == Seq::<C>::empty(),
            automaton.staged() == Map::<usize, C>::empty(),
    {
        Automaton { board: Board::<C>::default(), changes: UMap::<C>::default() }
    }
}

impl<C: Copy> Clone for Automaton<C> {
    fn clone(&self) -> (automaton: Self)
        ensures
            automaton.spec_dim() == self.spec_dim(),
            automaton.cells() == self.cells(),
            automaton.staged() == self.staged(),
    {
        proof {
            use_type_invariant(self);
        }
        Automaton { board: self.board.clone(), changes: self.changes.copied() }
    }
}

impl<C: AutomatonCell> Automaton<C> {
    /// An automaton with a new board of side `dim` and nothing staged.
    pub fn new(dim: usize) -> (automaton: Automaton<C>)
        requires
            board_fits(dim),
        ensures
            automaton.spec_dim() == dim,
            automaton.cells() == fresh_cells::<C>(dim as int),
            automaton.staged() == Map::<usize, C>::empty(),
    {
        Automaton { board: Board::<C>::new(dim), changes: UMap::<C>::with_capacity(dim) }
    }

    /// Applies the staged changes and then steps the board.
    pub fn next(&mut self)
        ensures
            final(self).spec_dim() == old(self).spec_dim(),
            final(self).cells() == stepped(
                patched(old(self).cells(), old(self).staged()),
                old(self).spec_dim() as int,
            ),
            final(self).staged() == Map::<usize, C>::empty(),
    {
        self.apply_changes();
        self.board = self.board.update();
    }

    /// Puts the board that `f` makes of the board in its place.
    pub fn transform<F: Fn(&Board<C>) -> Board<C>>(&mut self, f: F)
        requires
            f.requires((&old(self).spec_board(),)),
            forall|made: Board<C>|
                f.ensures((&old(self).spec_board(),), made) ==> made.spec_dim() == old(
                    self,
                ).spec_dim(),
        ensures
            f.ensures((&old(self).spec_board(),), final(self).spec_board()),
            final(self).staged() == old(self).staged(),
    {
        proof {
            use_type_invariant(&*self);
        }
        self.board = f(&self.board);
    }

    /// Stages `changed_cell` for the place of the cell at its position, in
    /// the place of a change staged for it before.
    pub fn add_change(&mut self, changed_cell: &C)
        requires
            old(self).spec_dim() > 0,
        ensures
            final(self).spec_board() == old(self).spec_board(),
            final(self).staged() == old(self).staged().insert(
                flat_key(
                    changed_cell.place().x as int,
                    changed_cell.place().y as int,
                    old(self).spec_dim() as int,
                ) as usize,
                *changed_cell,
            ),
    {
        proof {
            use_type_invariant(&*self);
        }
        let at = changed_cell.position();
        let id = Board::<C>::pos2id(self.dim(), &at);
        let mut changes = UMap::<C>::with_capacity(0);
        core::mem::swap(&mut self.changes, &mut changes);
        changes.put(id, *changed_cell);
        self.changes = changes;
    }

    /// Puts the staged changes into the board and forgets them.
    pub fn apply_changes(&mut self)
        ensures
            final(self).spec_dim() == old(self).spec_dim(),
            final(self).cells() == patched(old(self).cells(), old(self).staged()),
            final(self).staged() == Map::<usize, C>::empty(),
    {
        proof {
            use_type_invariant(&*self);
        }
        let patched = self.board.copy_and_update_2(&self.changes);
        let dim = self.dim();
        self.changes = UMap::<C>::with_capacity(dim);
        self.board = patched;
    }
}

} // verus!
