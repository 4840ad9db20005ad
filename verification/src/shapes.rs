use crate::game_state::Coord;
use vstd::prelude::*;

verus! {

/// One of the four orientations a piece can take; stepping clockwise walks
/// R0 -> R90 -> R180 -> R270 -> R0, counter-clockwise the reverse.
#[derive(Clone, Copy, PartialEq, Eq, Structural, Debug)]
pub enum Rotation {
    R0,
    R90,
    R180,
    R270,
}

/// The orientation one clockwise step ahead of `r`.
pub open spec fn spec_cw(r: Rotation) -> Rotation {
    match r {
        Rotation::R0 => Rotation::R90,
        Rotation::R90 => Rotation::R180,
        Rotation::R180 => Rotation::R270,
        Rotation::R270 => Rotation::R0,
    }
}

/// The orientation one counter-clockwise step ahead of `r`.
pub open spec fn spec_ccw(r: Rotation) -> Rotation {
    match r {
        Rotation::R0 => Rotation::R270,
        Rotation::R90 => Rotation::R0,
        Rotation::R180 => Rotation::R90,
        Rotation::R270 => Rotation::R180,
    }
}

impl Rotation {
    /// Get the next rotation clockwise.
    pub fn rotate_cw(&self) -> (r: Self)
        ensures
            r == spec_cw(*self),
    {
        match self {
            Rotation::R0 => Rotation::R90,
            Rotation::R90 => Rotation::R180,
            Rotation::R180 => Rotation::R270,
            Rotation::R270 => Rotation::R0,
        }
    }

    /// Get the next rotation counter-clockwise.
    pub fn rotate_ccw(&self) -> (r: Self)
        ensures
            r == spec_ccw(*self),
    {
        match self {
            Rotation::R0 => Rotation::R270,
            Rotation::R90 => Rotation::R0,
            Rotation::R180 => Rotation::R90,
            Rotation::R270 => Rotation::R180,
        }
    }

    /// The rotation as a decimal-degree string.
    pub fn get_string(&self) -> (r: String)
        ensures
            *self is R0 ==> r@ == "0"@,
            *self is R90 ==> r@ == "90"@,
            *self is R180 ==> r@ == "180"@,
            *self is R270 ==> r@ == "270"@,
    {
        match self {
            Rotation::R0 => "0",
            Rotation::R90 => "90",
            Rotation::R180 => "180",
            Rotation::R270 => "270",
        }.to_string()
    }
}

/// All colors a board cell can hold; a cell is occupied exactly when its
/// color is not `Empty`.
#[derive(Clone, Copy, PartialEq, Eq, Structural, Debug)]
pub enum ShapeColor {
    Cyan,
    Blue,
    Orange,
    Yellow,
    Green,
    Purple,
    Red,
    Empty,
}

impl ShapeColor {
    /// Determines if the color is representative of a block.
    pub fn is_block(&self) -> (r: bool)
        ensures
            r == !(*self is Empty),
    {
        match self {
            ShapeColor::Empty => false,
            _ => true,
        }
    }
}

/// The seven piece kinds.
#[derive(Clone, Copy, PartialEq, Eq, Structural, Debug)]
pub enum Shape {
    I,
    J,
    L,
    O,
    Z,
    T,
    S,
}

/// The color each piece kind paints onto the board.
pub open spec fn spec_color_of(s: Shape) -> ShapeColor {
    match s {
        Shape::I => ShapeColor::Cyan,
        Shape::J => ShapeColor::Blue,
        Shape::L => ShapeColor::Orange,
        Shape::O => ShapeColor::Yellow,
        Shape::Z => ShapeColor::Green,
        Shape::T => ShapeColor::Purple,
        Shape::S => ShapeColor::Red,
    }
}

/// Occupancy of the 4x4 local frame of shape `s` in orientation `r` at local
/// row `dy` and column `dx`.
pub open spec fn mask_at(s: Shape, r: Rotation, dy: int, dx: int) -> bool {
    match s {
        Shape::I => match r {
            Rotation::R0 => dy == 1 && 0 <= dx <= 3,
            Rotation::R90 => dx == 2 && 0 <= dy <= 3,
            Rotation::R180 => dy == 2 && 0 <= dx <= 3,
            Rotation::R270 => dx == 1 && 0 <= dy <= 3,
        },
        Shape::J => match r {
            Rotation::R0 => (dy == 0 && dx == 0) || (dy == 1 && 0 <= dx <= 2),
            Rotation::R90 => (dy == 0 && 1 <= dx <= 2) || (dy == 1 && dx == 1) || (dy == 2
                && dx == 1),
            Rotation::R180 => (dy == 1 && 0 <= dx <= 2) || (dy == 2 && dx == 2),
            Rotation::R270 => (dy == 0 && dx == 1) || (dy == 1 && dx == 1) || (dy == 2 && 0 <= dx
                <= 1),
        },
        Shape::L => match r {
            Rotation::R0 => (dy == 0 && dx == 2) || (dy == 1 && 0 <= dx <= 2),
            Rotation::R90 => (dy == 0 && dx == 1) || (dy == 1 && dx == 1) || (dy == 2 && 1 <= dx
                <= 2),
            Rotation::R180 => (dy == 1 && 0 <= dx <= 2) || (dy == 2 && dx == 0),
            Rotation::R270 => (dy == 0 && 0 <= dx <= 1) || (dy == 1 && dx == 1) || (dy == 2
                && dx == 1),
        },
        Shape::O => (1 <= dy <= 2) && (1 <= dx <= 2),
        Shape::S => match r {
            Rotation::R0 => (dy == 0 && 1 <= dx <= 2) || (dy == 1 && 0 <= dx <= 1),
            Rotation::R90 => (dy == 0 && dx == 1) || (dy == 1 && 1 <= dx <= 2) || (dy == 2
                && dx == 2),
            Rotation::R180 => (dy == 1 && 1 <= dx <= 2) || (dy == 2 && 0 <= dx <= 1),
            Rotation::R270 => (dy == 0 && dx == 0) || (dy == 1 && 0 <= dx <= 1) || (dy == 2
                && dx == 1),
        },
        Shape::Z => match r {
            Rotation::R0 => (dy == 0 && 0 <= dx <= 1) || (dy == 1 && 1 <= dx <= 2),
            Rotation::R90 => (dy == 0 && dx == 1) || (dy == 1 && 0 <= dx <= 1) || (dy == 2
                && dx == 0),
            Rotation::R180 => (dy == 1 && 0 <= dx <= 1) || (dy == 2 && 1 <= dx <= 2),
            Rotation::R270 => (dy == 0 && dx == 2) || (dy == 1 && 1 <= dx <= 2) || (dy == 2
                && dx == 1),
        },
        Shape::T => match r {
            Rotation::R0 => (dy == 0 && dx == 1) || (dy == 1 && 0 <= dx <= 2),
            Rotation::R90 => (dy == 0 && dx == 1) || (dy == 1 && 1 <= dx <= 2) || (dy == 2
                && dx == 1),
            Rotation::R180 => (dy == 1 && 0 <= dx <= 2) || (dy == 2 && dx == 1),
            Rotation::R270 => (dy == 0 && dx == 1) || (dy == 1 && 0 <= dx <= 1) || (dy == 2
                && dx == 1),
        },
    }
}

/// Every (shape, orientation) mask marks at least one of its sixteen cells.
pub proof fn lemma_mask_nonempty(s: Shape, r: Rotation)
    ensures
        exists|dy: int, dx: int| 0 <= dy < 4 && 0 <= dx < 4 && mask_at(s, r, dy, dx),
{
    match s {
        Shape::I => {
            match r {
                Rotation::R0 => assert(mask_at(s, r, 1, 0)),
                Rotation::R90 => assert(mask_at(s, r, 0, 2)),
                Rotation::R180 => assert(mask_at(s, r, 2, 0)),
                Rotation::R270 => assert(mask_at(s, r, 0, 1)),
            }
        },
        Shape::J => {
            match r {
                Rotation::R0 => assert(mask_at(s, r, 0, 0)),
                Rotation::R90 => assert(mask_at(s, r, 1, 1)),
                Rotation::R180 => assert(mask_at(s, r, 1, 0)),
                Rotation::R270 => assert(mask_at(s, r, 0, 1)),
            }
        },
        Shape::L => {
            match r {
                Rotation::R0 => assert(mask_at(s, r, 0, 2)),
                Rotation::R90 => assert(mask_at(s, r, 0, 1)),
                Rotation::R180 => assert(mask_at(s, r, 1, 0)),
                Rotation::R270 => assert(mask_at(s, r, 0, 0)),
            }
        },
        Shape::O => {
            assert(mask_at(s, r, 1, 1));
        },
        Shape::S => {
            match r {
                Rotation::R0 => assert(mask_at(s, r, 0, 1)),
                Rotation::R90 => assert(mask_at(s, r, 0, 1)),
                Rotation::R180 => assert(mask_at(s, r, 1, 1)),
                Rotation::R270 => assert(mask_at(s, r, 0, 0)),
            }
        },
        Shape::Z => {
            match r {
                Rotation::R0 => assert(mask_at(s, r, 0, 0)),
                Rotation::R90 => assert(mask_at(s, r, 0, 1)),
                Rotation::R180 => assert(mask_at(s, r, 1, 0)),
                Rotation::R270 => assert(mask_at(s, r, 0, 2)),
            }
        },
        Shape::T => {
            match r {
                Rotation::R0 => assert(mask_at(s, r, 0, 1)),
                Rotation::R90 => assert(mask_at(s, r, 0, 1)),
                Rotation::R180 => assert(mask_at(s, r, 1, 0)),
                Rotation::R270 => assert(mask_at(s, r, 0, 1)),
            }
        },
    }
}

/// Whether `from -> to` is a single clockwise or counter-clockwise step:
/// the only rotation transitions the kick tables define.
pub open spec fn spec_valid_transition(from: Rotation, to: Rotation) -> bool {
    to == spec_cw(from) || to == spec_ccw(from)
}

/// The five anchor offsets, in preference order, tried when shape `s`
/// rotates from `from` to `to`.
pub open spec fn spec_kicks(s: Shape, from: Rotation, to: Rotation) -> Seq<(int, int)> {
    match s {
        Shape::O => seq![(0, 0), (0, 0), (0, 0), (0, 0), (0, 0)],
        Shape::I => match (from, to) {
            (Rotation::R0, Rotation::R90) => seq![(0, 0), (-2, 0), (1, 0), (-2, -1), (1, 2)],
            (Rotation::R90, Rotation::R0) => seq![(0, 0), (2, 0), (-1, 0), (2, 1), (-1, -2)],
            (Rotation::R90, Rotation::R180) => seq![(0, 0), (-1, 0), (2, 0), (-1, 2), (2, -1)],
            (Rotation::R180, Rotation::R90) => seq![(0, 0), (1, 0), (-2, 1), (1, -2), (-2, 1)],
            (Rotation::R180, Rotation::R270) => seq![(0, 0), (2, 0), (-1, 0), (2, 1), (-1, -2)],
            (Rotation::R270, Rotation::R180) => seq![(0, 0), (-2, 0), (1, 0), (-2, -1), (1, 2)],
            (Rotation::R270, Rotation::R0) => seq![(0, 0), (1, 0), (-2, 0), (1, -2), (-2, 1)],
            (Rotation::R0, Rotation::R270) => seq![(0, 0), (-1, 0), (2, 0), (-1, 2), (2, -1)],
            _ => seq![(0, 0), (0, 0), (0, 0), (0, 0), (0, 0)],
        },
        _ => match (from, to) {
            (Rotation::R0, Rotation::R90) => seq![(0, 0), (-1, 0), (-1, 1), (0, -2), (-1, -2)],
            (Rotation::R90, Rotation::R0) => seq![(0, 0), (1, 0), (1, -1), (0, 2), (1, 2)],
            (Rotation::R90, Rotation::R180) => seq![(0, 0), (1, 0), (1, -1), (0, 2), (1, 2)],
            (Rotation::R180, Rotation::R90) => seq![(0, 0), (-1, 0), (-1, 1), (0, -2), (-1, -2)],
            (Rotation::R180, Rotation::R270) => seq![(0, 0), (1, 0), (1, 1), (0, -2), (1, -2)],
            (Rotation::R270, Rotation::R180) => seq![(0, 0), (-1, 0), (-1, -1), (0, 2), (-1, 2)],
            (Rotation::R270, Rotation::R0) => seq![(0, 0), (-1, 0), (-1, -1), (0, 2), (-1, 2)],
            (Rotation::R0, Rotation::R270) => seq![(0, 0), (1, 0), (1, 1), (0, -2), (1, -2)],
            _ => seq![(0, 0), (0, 0), (0, 0), (0, 0), (0, 0)],
        },
    }
}

/// Relies on rand::random_range: a uniform draw from `0..n` lies in that
/// range; the range is non-empty, so the call does not panic.
#[verifier::external_body]
pub(crate) fn random_below(n: u8) -> (r: u8)
    requires
        n > 0,
    ensures
        r < n,
{
    rand::random_range(0..n)
}

/// The anchor column and row at which each piece kind spawns.
pub open spec fn spec_spawn_x(s: Shape) -> int {
    3
}

/// The spawn anchor row: the I and O masks sit one row higher in their
/// local frame than the other five kinds.
pub open spec fn spec_spawn_y(s: Shape) -> int {
    match s {
        Shape::I | Shape::O => 1,
        _ => 2,
    }
}

impl Shape {
    /// Gets the color associated with the shape.
    pub fn get_color(&self) -> (c: ShapeColor)
        ensures
            c == spec_color_of(*self),
            !(c is Empty),
    {
        match self {
            Shape::I => ShapeColor::Cyan,
            Shape::J => ShapeColor::Blue,
            Shape::L => ShapeColor::Orange,
            Shape::O => ShapeColor::Yellow,
            Shape::Z => ShapeColor::Green,
            Shape::T => ShapeColor::Purple,
            Shape::S => ShapeColor::Red,
        }
    }

    /// Gets the next shape in the fixed I, J, L, O, Z, T, S cycle.
    pub fn get_next_shape_ord(&self) -> (n: Self)
        ensures
            n == match *self {
                Shape::I => Shape::J,
                Shape::J => Shape::L,
                Shape::L => Shape::O,
                Shape::O => Shape::Z,
                Shape::Z => Shape::T,
                Shape::T => Shape::S,
                Shape::S => Shape::I,
            },
    {
        match self {
            Shape::I => Shape::J,
            Shape::J => Shape::L,
            Shape::L => Shape::O,
            Shape::O => Shape::Z,
            Shape::Z => Shape::T,
            Shape::T => Shape::S,
            Shape::S => Shape::I,
        }
    }

    /// Returns the spawn anchor for each piece.
    pub fn get_spawn_offsets(&self) -> (c: Coord)
        ensures
            c.x as int == spec_spawn_x(*self),
            c.y as int == spec_spawn_y(*self),
    {
        match self {
            Shape::I => Coord { x: 3, y: 1 },
            Shape::O => Coord { x: 3, y: 1 },
            Shape::J | Shape::L | Shape::Z | Shape::T | Shape::S => Coord { x: 3, y: 2 },
        }
    }

    /// Returns a piece drawn at random.
    pub fn random() -> Self {
        match random_below(7) {
            0 => Shape::I,
            1 => Shape::J,
            2 => Shape::L,
            3 => Shape::O,
            4 => Shape::Z,
            5 => Shape::T,
            _ => Shape::S,
        }
    }

    /// Gets the wall kick data for the current shape.
    pub fn get_kick_data(&self, from: &Rotation, to: &Rotation) -> (ks: [(i16, i16); 5])
        requires
            *self is O || spec_valid_transition(*from, *to),
        ensures
            forall|i: int|
                0 <= i < 5 ==> (#[trigger] ks@[i]).0 as int == spec_kicks(*self, *from, *to)[i].0
                    && ks@[i].1 as int == spec_kicks(*self, *from, *to)[i].1,
    {
        match self {
            Shape::J | Shape::L | Shape::S | Shape::T | Shape::Z => {
                match (from, to) {
                    (Rotation::R0, Rotation::R90) => [(0, 0), (-1, 0), (-1, 1), (0, -2), (-1, -2)],
                    (Rotation::R90, Rotation::R0) => [(0, 0), (1, 0), (1, -1), (0, 2), (1, 2)],
                    (Rotation::R90, Rotation::R180) => [(0, 0), (1, 0), (1, -1), (0, 2), (1, 2)],
                    (Rotation::R180, Rotation::R90) => [(0, 0), (-1, 0), (-1, 1), (0, -2), (-1, -2)],
                    (Rotation::R180, Rotation::R270) => [(0, 0), (1, 0), (1, 1), (0, -2), (1, -2)],
                    (Rotation::R270, Rotation::R180) => [(0, 0), (-1, 0), (-1, -1), (0, 2), (-1, 2)],
                    (Rotation::R270, Rotation::R0) => [(0, 0), (-1, 0), (-1, -1), (0, 2), (-1, 2)],
                    (Rotation::R0, Rotation::R270) => [(0, 0), (1, 0), (1, 1), (0, -2), (1, -2)],
                    _ => [(0, 0), (0, 0), (0, 0), (0, 0), (0, 0)],
                }
            },
            Shape::O => [(0, 0), (0, 0), (0, 0), (0, 0), (0, 0)],
            Shape::I => match (from, to) {
                (Rotation::R0, Rotation::R90) => [(0, 0), (-2, 0), (1, 0), (-2, -1), (1, 2)],
                (Rotation::R90, Rotation::R0) => [(0, 0), (2, 0), (-1, 0), (2, 1), (-1, -2)],
                (Rotation::R90, Rotation::R180) => [(0, 0), (-1, 0), (2, 0), (-1, 2), (2, -1)],
                (Rotation::R180, Rotation::R90) => [(0, 0), (1, 0), (-2, 1), (1, -2), (-2, 1)],
                (Rotation::R180, Rotation::R270) => [(0, 0), (2, 0), (-1, 0), (2, 1), (-1, -2)],
                (Rotation::R270, Rotation::R180) => [(0, 0), (-2, 0), (1, 0), (-2, -1), (1, 2)],
                (Rotation::R270, Rotation::R0) => [(0, 0), (1, 0), (-2, 0), (1, -2), (-2, 1)],
                (Rotation::R0, Rotation::R270) => [(0, 0), (-1, 0), (2, 0), (-1, 2), (2, -1)],
                _ => [(0, 0), (0, 0), (0, 0), (0, 0), (0, 0)],
            },
        }
    }

    /// Gets the current shape occupancy array based on rotation.
    pub fn get_shape(&self, rot: &Rotation) -> (m: [[bool; 4]; 4])
        ensures
            forall|dy: int, dx: int|
                0 <= dy < 4 && 0 <= dx < 4 ==> m@[dy]@[dx] == mask_at(*self, *rot, dy, dx),
    {
        match self {
            Shape::I => match rot {
                Rotation::R0 => [
                    [false, false, false, false],
                    [true, true, true, true],
                    [false, false, false, false],
                    [false, false, false, false],
                ],
                Rotation::R90 => [
                    [false, false, true, false],
                    [false, false, true, false],
                    [false, false, true, false],
                    [false, false, true, false],
                ],
                Rotation::R180 => [
                    [false, false, false, false],
                    [false, false, false, false],
                    [true, true, true, true],
                    [false, false, false, false],
                ],
                Rotation::R270 => [
                    [false, true, false, false],
                    [false, true, false, false],
                    [false, true, false, false],
                    [false, true, false, false],
                ],
            },
            Shape::J => match rot {
                Rotation::R0 => [
                    [true, false, false, false],
                    [true, true, true, false],
                    [false, false, false, false],
                    [false, false, false, false],
                ],
                Rotation::R90 => [
                    [false, true, true, false],
                    [false, true, false, false],
                    [false, true, false, false],
                    [false, false, false, false],
                ],
                Rotation::R180 => [
                    [false, false, false, false],
                    [true, true, true, false],
                    [false, false, true, false],
                    [false, false, false, false],
                ],
                Rotation::R270 => [
                    [false, true, false, false],
                    [false, true, false, false],
                    [true, true, false, false],
                    [false, false, false, false],
                ],
            },
            Shape::L => match rot {
                Rotation::R0 => [
                    [false, false, true, false],
                    [true, true, true, false],
                    [false, false, false, false],
                    [false, false, false, false],
                ],
                Rotation::R90 => [
                    [false, true, false, false],
                    [false, true, false, false],
                    [false, true, true, false],
                    [false, false, false, false],
                ],
                Rotation::R180 => [
                    [false, false, false, false],
                    [true, true, true, false],
                    [true, false, false, false],
                    [false, false, false, false],
                ],
                Rotation::R270 => [
                    [true, true, false, false],
                    [false, true, false, false],
                    [false, true, false, false],
                    [false, false, false, false],
                ],
            },
            Shape::O => [
                [false, false, false, false],
                [false, true, true, false],
                [false, true, true, false],
                [false, false, false, false],
            ],
            Shape::S => match rot {
                Rotation::R0 => [
                    [false, true, true, false],
                    [true, true, false, false],
                    [false, false, false, false],
                    [false, false, false, false],
                ],
                Rotation::R90 => [
                    [false, true, false, false],
                    [false, true, true, false],
                    [false, false, true, false],
                    [false, false, false, false],
                ],
                Rotation::R180 => [
                    [false, false, false, false],
                    [false, true, true, false],
                    [true, true, false, false],
                    [false, false, false, false],
                ],
                Rotation::R270 => [
                    [true, false, false, false],
                    [true, true, false, false],
                    [false, true, false, false],
                    [false, false, false, false],
                ],
            },
            Shape::Z => match rot {
                Rotation::R0 => [
                    [true, true, false, false],
                    [false, true, true, false],
                    [false, false, false, false],
                    [false, false, false, false],
                ],
                Rotation::R90 => [
                    [false, true, false, false],
                    [true, true, false, false],
                    [true, false, false, false],
                    [false, false, false, false],
                ],
                Rotation::R180 => [
                    [false, false, false, false],
                    [true, true, false, false],
                    [false, true, true, false],
                    [false, false, false, false],
                ],
                Rotation::R270 => [
                    [false, false, true, false],
                    [false, true, true, false],
                    [false, true, false, false],
                    [false, false, false, false],
                ],
            },
            Shape::T => match rot {
                Rotation::R0 => [
                    [false, true, false, false],
                    [true, true, true, false],
                    [false, false, false, false],
                    [false, false, false, false],
                ],
                Rotation::R90 => [
                    [false, true, false, false],
                    [false, true, true, false],
                    [false, true, false, false],
                    [false, false, false, false],
                ],
                Rotation::R180 => [
                    [false, false, false, false],
                    [true, true, true, false],
                    [false, true, false, false],
                    [false, false, false, false],
                ],
                Rotation::R270 => [
                    [false, true, false, false],
                    [true, true, false, false],
                    [false, true, false, false],
                    [false, false, false, false],
                ],
            },
        }
    }
}

} // verus!
