//! Positions and directions on a square grid, and the small value types
//! that cells are made of.

use vstd::arithmetic::div_mod::lemma_fundamental_div_mod_converse;
use vstd::prelude::*;
use vstd::string::StringExecFns;

verus! {

/// One of the four directions on the grid. `y` grows downwards, so `Up`
/// leads to smaller `y`.
#[derive(Copy, Clone, Debug, Eq, PartialEq, Hash, Structural)]
pub enum Dir2D {
    Up,
    Right,
    Down,
    Left,
}

/// The four directions in the order in which neighbours are visited.
pub const DIRS4: [Dir2D; 4] = [Dir2D::Up, Dir2D::Right, Dir2D::Down, Dir2D::Left];

impl Dir2D {
    pub open spec fn spec_turn_right(self) -> Dir2D {
        match self {
            Dir2D::Up => Dir2D::Right,
            Dir2D::Right => Dir2D::Down,
            Dir2D::Down => Dir2D::Left,
            Dir2D::Left => Dir2D::Up,
        }
    }

    pub open spec fn spec_turn_left(self) -> Dir2D {
        match self {
            Dir2D::Up => Dir2D::Left,
            Dir2D::Right => Dir2D::Up,
            Dir2D::Down => Dir2D::Right,
            Dir2D::Left => Dir2D::Down,
        }
    }

    pub open spec fn spec_turn_around(self) -> Dir2D {
        match self {
            Dir2D::Up => Dir2D::Down,
            Dir2D::Right => Dir2D::Left,
            Dir2D::Down => Dir2D::Up,
            Dir2D::Left => Dir2D::Right,
        }
    }

    #[verifier::when_used_as_spec(spec_turn_right)]
    pub fn turn_right(self) -> (d: Dir2D)
        ensures
            d == self.spec_turn_right(),
    {
        match self {
            Dir2D::Up => Dir2D::Right,
            Dir2D::Right => Dir2D::Down,
            Dir2D::Down => Dir2D::Left,
            Dir2D::Left => Dir2D::Up,
        }
    }

    #[verifier::when_used_as_spec(spec_turn_left)]
    pub fn turn_left(self) -> (d: Dir2D)
        ensures
            d == self.spec_turn_left(),
    {
        match self {
            Dir2D::Up => Dir2D::Left,
            Dir2D::Right => Dir2D::Up,
            Dir2D::Down => Dir2D::Right,
            Dir2D::Left => Dir2D::Down,
        }
    }

    #[verifier::when_used_as_spec(spec_turn_around)]
    pub fn turn_around(self) -> (d: Dir2D)
        ensures
            d == self.spec_turn_around(),
    {
        match self {
            Dir2D::Up => Dir2D::Down,
            Dir2D::Right => Dir2D::Left,
            Dir2D::Down => Dir2D::Up,
            Dir2D::Left => Dir2D::Right,
        }
    }

    pub open spec fn spec_name(self) -> &'static str {
        match self {
            Dir2D::Up => "Up",
            Dir2D::Right => "Right",
            Dir2D::Down => "Down",
            Dir2D::Left => "Left",
        }
    }

    /// The name of the direction.
    #[verifier::when_used_as_spec(spec_name)]
    pub fn name(self) -> (text: &'static str)
        ensures
            text == self.spec_name(),
    {
        match self {
            Dir2D::Up => "Up",
            Dir2D::Right => "Right",
            Dir2D::Down => "Down",
            Dir2D::Left => "Left",
        }
    }
}

impl Dir2D {
    /// The direction as it is printed: its name in brackets after the name
    /// of the type.
    pub fn to_text(self) -> (text: String)
        ensures
            text@ == "Dir2D("@ + self.name()@ + ")"@,
    {
        let mut text = String::from_str("Dir2D(");
        text.append(self.name());
        text.append(")");
        text
    }
}

/// The turns are rotations of the compass: a right turn undoes a left turn,
/// two turns the same way turn around, and turning around twice leads back.
pub proof fn lemma_turns(d: Dir2D)
    ensures
        d.turn_left().turn_right() == d,
        d.turn_right().turn_left() == d,
        d.turn_right().turn_right() == d.turn_around(),
        d.turn_left().turn_left() == d.turn_around(),
        d.turn_around().turn_around() == d,
{
}

/// The distance between two coordinates.
pub open spec fn span(a: i64, b: i64) -> int {
    if a <= b {
        b - a
    } else {
        a - b
    }
}

/// The smaller of two coordinates.
pub open spec fn lower(a: i64, b: i64) -> int {
    if a <= b {
        a as int
    } else {
        b as int
    }
}

/// The positions of a block that starts at `(x0, y0)` and has `width`
/// values of `x` and `height` values of `y`: first all positions with the
/// smallest `x`, by ascending `y`, then those with the next `x`, and so on.
/// On a board this is the order of the flat keys.
pub open spec fn block(x0: int, y0: int, width: int, height: int) -> Seq<Pos2D> {
    Seq::new(
        (width * height) as nat,
        |i: int| Pos2D { x: (x0 + i / height) as i64, y: (y0 + i % height) as i64 },
    )
}

/// A position on the grid.
#[derive(Debug, Clone, Copy, Eq, PartialEq, Hash, Structural)]
pub struct Pos2D {
    pub x: i64,
    pub y: i64,
}

impl Pos2D {
    pub fn new(x: i64, y: i64) -> (pos: Pos2D)
        ensures
            pos == (Pos2D { x, y }),
    {
        Pos2D { x, y }
    }

    /// All positions of a board of side `dim`, in the order of their flat keys.
    pub fn from_dim(dim: usize) -> (all: Vec<Pos2D>)
        requires
            dim * dim <= i64::MAX,
        ensures
            all@ == block(0, 0, dim as int, dim as int),
    {
        assert(dim <= i64::MAX) by (nonlinear_arith)
            requires
                dim * dim <= i64::MAX,
                dim >= 0,
        ;
        let side = dim as i64;
        Pos2D::from_range(Pos2D::new(0, 0), Pos2D::new(side, side))
    }

    /// The positions between two corners, the larger coordinates left out,
    /// in the order of a [`block`].
    pub fn from_range(one: Pos2D, other: Pos2D) -> (all: Vec<Pos2D>)
        requires
            span(one.x, other.x) <= i64::MAX,
            span(one.y, other.y) <= i64::MAX,
            span(one.x, other.x) * span(one.y, other.y) <= i64::MAX,
        ensures
            all@ == block(lower(one.x, other.x), lower(one.y, other.y), span(one.x, other.x), span(one.y, other.y)),
    {
        let xfrom = if one.x < other.x {
            one.x
        } else {
            other.x
        };
        let yfrom = if one.y < other.y {
            one.y
        } else {
            other.y
        };
        let xto = if one.x > other.x {
            one.x
        } else {
            other.x
        };
        let yto = if one.y > other.y {
            one.y
        } else {
            other.y
        };
        let ghost width = xto - xfrom;
        let ghost height = yto - yfrom;
        let ghost goal = block(xfrom as int, yfrom as int, width, height);
        let mut v = Vec::with_capacity(((xto - xfrom) * (yto - yfrom)) as usize);
        let mut x = xfrom;
        while x < xto
            invariant
                xfrom <= x <= xto,
                yfrom <= yto,
                width == xto - xfrom,
                height == yto - yfrom,
                goal == block(xfrom as int, yfrom as int, width, height),
                v@.len() == (x - xfrom) * height,
                forall|i: int| 0 <= i < v@.len() ==> v@[i] == goal[i],
            decreases xto - x,
        {
            let mut y = yfrom;
            while y < yto
                invariant
                    xfrom <= x < xto,
                    yfrom <= y <= yto,
                    width == xto - xfrom,
                    height == yto - yfrom,
                    goal == block(xfrom as int, yfrom as int, width, height),
                    v@.len() == (x - xfrom) * height + (y - yfrom),
                    forall|i: int| 0 <= i < v@.len() ==> v@[i] == goal[i],
                decreases yto - y,
            {
                proof {
                    let at = v@.len() as int;
                    lemma_fundamental_div_mod_converse(at, height, x - xfrom, y - yfrom);
                    assert(at < width * height) by (nonlinear_arith)
                        requires
                            at == (x - xfrom) * height + (y - yfrom),
                            0 <= x - xfrom < width,
                            0 <= y - yfrom < height,
                    ;
                }
                v.push(Pos2D::new(x, y));
                y += 1;
            }
            assert((x - xfrom) * height + height == (x + 1 - xfrom) * height) by (nonlinear_arith);
            x += 1;
        }
        v
    }

    /// The position one step away in the direction `dir`.
    pub open spec fn spec_move_by_one(self, dir: Dir2D) -> (int, int) {
        match dir {
            Dir2D::Up => (self.x as int, self.y - 1),
            Dir2D::Right => (self.x + 1, self.y as int),
            Dir2D::Down => (self.x as int, self.y + 1),
            Dir2D::Left => (self.x - 1, self.y as int),
        }
    }

    /// The position one step away in the direction `dir`.
    pub fn move_by_one(&self, dir: Dir2D) -> (pos: Pos2D)
        requires
            i64::MIN <= self.spec_move_by_one(dir).0 <= i64::MAX,
            i64::MIN <= self.spec_move_by_one(dir).1 <= i64::MAX,
        ensures
            (pos.x as int, pos.y as int) == self.spec_move_by_one(dir),
    {
        match dir {
            Dir2D::Up => Pos2D::new(self.x, self.y - 1),
            Dir2D::Right => Pos2D::new(self.x + 1, self.y),
            Dir2D::Down => Pos2D::new(self.x, self.y + 1),
            Dir2D::Left => Pos2D::new(self.x - 1, self.y),
        }
    }
}

/// One of two colours.
#[derive(Copy, Clone, Debug, Eq, PartialEq, Hash, Structural)]
pub enum WhiteBlack {
    White,
    Black,
}

impl WhiteBlack {
    /// The other colour.
    pub fn toggle(self) -> (c: WhiteBlack)
        ensures
            c == match self {
                WhiteBlack::White => WhiteBlack::Black,
                WhiteBlack::Black => WhiteBlack::White,
            },
    {
        if self == WhiteBlack::White {
            WhiteBlack::Black
        } else {
            WhiteBlack::White
        }
    }

    /// `White` for 0 and `Black` for 1.
    pub fn from(c: usize) -> (colour: WhiteBlack)
        requires
            c < 2,
        ensures
            colour == if c == 0 {
                WhiteBlack::White
            } else {
                WhiteBlack::Black
            },
    {
        if c == 0 {
            WhiteBlack::White
        } else {
            WhiteBlack::Black
        }
    }

    /// The colour as it is printed: its name in brackets after the name of
    /// the type.
    pub fn to_text(self) -> (text: String)
        ensures
            text@ == "WhiteBlack("@ + self.name()@ + ")"@,
    {
        let mut text = String::from_str("WhiteBlack(");
        text.append(self.name());
        text.append(")");
        text
    }

    pub open spec fn spec_name(self) -> &'static str {
        match self {
            WhiteBlack::White => "White",
            WhiteBlack::Black => "Black",
        }
    }

    /// The name of the colour.
    #[verifier::when_used_as_spec(spec_name)]
    pub fn name(self) -> (text: &'static str)
        ensures
            text == self.spec_name(),
    {
        match self {
            WhiteBlack::White => "White",
            WhiteBlack::Black => "Black",
        }
    }
}

/// A colour of red, green and blue parts.
#[derive(Debug, Clone, Copy, Eq, PartialEq, Hash, Structural)]
pub struct RGB {
    pub r: u8,
    pub g: u8,
    pub b: u8,
}

impl RGB {
    pub fn white() -> (colour: RGB)
        ensures
            colour == (RGB { r: 255, g: 255, b: 255 }),
    {
        RGB { r: 255, g: 255, b: 255 }
    }

    pub fn black() -> (colour: RGB)
        ensures
            colour == (RGB { r: 0, g: 0, b: 0 }),
    {
        RGB { r: 0, g: 0, b: 0 }
    }

    pub fn red() -> (colour: RGB)
        ensures
            colour == (RGB { r: 255, g: 0, b: 0 }),
    {
        RGB { r: 255, g: 0, b: 0 }
    }

    pub fn orange() -> (colour: RGB)
        ensures
            colour == (RGB { r: 255, g: 165, b: 0 }),
    {
        RGB { r: 255, g: 165, b: 0 }
    }

    pub fn yellow() -> (colour: RGB)
        ensures
            colour == (RGB { r: 255, g: 255, b: 0 }),
    {
        RGB { r: 255, g: 255, b: 0 }
    }

    pub fn green() -> (colour: RGB)
        ensures
            colour == (RGB { r: 0, g: 255, b: 0 }),
    {
        RGB { r: 0, g: 255, b: 0 }
    }

    pub fn blue() -> (colour: RGB)
        ensures
            colour == (RGB { r: 0, g: 0, b: 255 }),
    {
        RGB { r: 0, g: 0, b: 255 }
    }

    pub fn indigo() -> (colour: RGB)
        ensures
            colour == (RGB { r: 0, g: 28, b: 200 }),
    {
        RGB { r: 0, g: 28, b: 200 }
    }

    pub fn violet() -> (colour: RGB)
        ensures
            colour == (RGB { r: 128, g: 0, b: 255 }),
    {
        RGB { r: 128, g: 0, b: 255 }
    }

    pub fn new(r: u8, g: u8, b: u8) -> (colour: RGB)
        ensures
            colour == (RGB { r, g, b }),
    {
        RGB { r, g, b }
    }
}

} // verus!
