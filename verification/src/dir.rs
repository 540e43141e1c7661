use vstd::prelude::*;

use crate::usize_plus_i;

verus! {

/// A compass direction on a grid: it can say its coordinate step, rotate,
/// flip, and enumerate itself. Each implementation pins the executable
/// methods to its own specification functions, so rotation tables are part
/// of the contract.
pub trait Direction: Sized + Copy {
    /// The coordinate step of this direction, x then y, with y growing
    /// downward.
    spec fn delta_spec(self) -> (int, int);

    /// One step clockwise in the implementation's finest granularity.
    spec fn rotate_right_spec(self) -> Self;

    /// One step counter-clockwise.
    spec fn rotate_left_spec(self) -> Self;

    /// A quarter turn clockwise.
    spec fn rotate_right_90_spec(self) -> Self;

    /// A quarter turn counter-clockwise.
    spec fn rotate_left_90_spec(self) -> Self;

    /// The reverse direction.
    spec fn opposite_spec(self) -> Self;

    fn delta(self) -> (r: (i8, i8))
        ensures
            r.0 as int == self.delta_spec().0,
            r.1 as int == self.delta_spec().1,
    ;

    fn rotate_right(self) -> (r: Self)
        ensures
            r == self.rotate_right_spec(),
    ;

    fn rotate_left(self) -> (r: Self)
        ensures
            r == self.rotate_left_spec(),
    ;

    fn rotate_right_90(self) -> (r: Self)
        ensures
            r == self.rotate_right_90_spec(),
    ;

    fn rotate_left_90(self) -> (r: Self)
        ensures
            r == self.rotate_left_90_spec(),
    ;

    fn opposite(self) -> (r: Self)
        ensures
            r == self.opposite_spec(),
    ;

    /// Every direction once, starting upward and turning clockwise.
    fn iter() -> Vec<Self>;

    /// Applies the direction's step to a pair of indices. The caller answers
    /// for the result staying inside the machine's indices.
    fn apply_delta_to_usizes(self, usizes: (usize, usize)) -> (r: (usize, usize))
        requires
            usizes.0 <= i64::MAX,
            usizes.1 <= i64::MAX,
            0 <= usizes.0 + self.delta_spec().0 <= usize::MAX,
            0 <= usizes.1 + self.delta_spec().1 <= usize::MAX,
            usizes.0 + self.delta_spec().0 <= i64::MAX,
            usizes.1 + self.delta_spec().1 <= i64::MAX,
        ensures
            r.0 == usizes.0 + self.delta_spec().0,
            r.1 == usizes.1 + self.delta_spec().1,
    {
        let (d_x, d_y) = self.delta();
        (usize_plus_i(usizes.0, d_x as i64), usize_plus_i(usizes.1, d_y as i64))
    }

    /// The neighbours of `curr` in every direction that stay inside the
    /// `size.0` by `size.1` grid.
    fn iter_valid_usizes_deltas(curr: (usize, usize), size: (usize, usize)) -> (r: Vec<
        (usize, usize),
    >)
        ensures
            forall|p: int|
                0 <= p < r@.len() ==> (#[trigger] r@[p]).0 < size.0 && r@[p].1 < size.1,
    {
        let dirs = Self::iter();
        let mut r: Vec<(usize, usize)> = Vec::new();
        let mut t: usize = 0;
        while t < dirs.len()
            invariant
                t <= dirs@.len(),
                forall|p: int|
                    0 <= p < r@.len() ==> (#[trigger] r@[p]).0 < size.0 && r@[p].1 < size.1,
            decreases dirs@.len() - t,
        {
            let d = dirs[t];
            let (dx, dy) = d.delta();
            let next_x: i128 = (curr.0 as i128) + (dx as i128);
            let next_y: i128 = (curr.1 as i128) + (dy as i128);
            if next_x >= 0 && next_x < (size.0 as i128) && next_y >= 0 && next_y < (size.1 as i128)
            {
                r.push((next_x as usize, next_y as usize));
            }
            t = t + 1;
        }
        r
    }
}

/// The four axis directions.
#[derive(Copy, Clone, Debug, PartialEq, Eq, Hash, Structural)]
pub enum Dir4 {
    Up,
    Down,
    Left,
    Right,
}

impl Direction for Dir4 {
    open spec fn delta_spec(self) -> (int, int) {
        match self {
            Dir4::Up => (0, -1),
            Dir4::Down => (0, 1),
            Dir4::Left => (-1, 0),
            Dir4::Right => (1, 0),
        }
    }

    open spec fn rotate_right_spec(self) -> Dir4 {
        match self {
            Dir4::Up => Dir4::Right,
            Dir4::Down => Dir4::Left,
            Dir4::Left => Dir4::Up,
            Dir4::Right => Dir4::Down,
        }
    }

    open spec fn rotate_left_spec(self) -> Dir4 {
        self.rotate_right_spec().opposite_spec()
    }

    open spec fn rotate_right_90_spec(self) -> Dir4 {
        self.rotate_right_spec()
    }

    open spec fn rotate_left_90_spec(self) -> Dir4 {
        self.rotate_left_spec()
    }

    open spec fn opposite_spec(self) -> Dir4 {
        match self {
            Dir4::Up => Dir4::Down,
            Dir4::Down => Dir4::Up,
            Dir4::Left => Dir4::Right,
            Dir4::Right => Dir4::Left,
        }
    }

    fn delta(self) -> (r: (i8, i8)) {
        match self {
            Dir4::Up => (0, -1),
            Dir4::Down => (0, 1),
            Dir4::Left => (-1, 0),
            Dir4::Right => (1, 0),
        }
    }

    fn rotate_right(self) -> (r: Dir4) {
        match self {
            Dir4::Up => Dir4::Right,
            Dir4::Down => Dir4::Left,
            Dir4::Left => Dir4::Up,
            Dir4::Right => Dir4::Down,
        }
    }

    fn rotate_left(self) -> (r: Dir4) {
        self.rotate_right().opposite()
    }

    fn rotate_right_90(self) -> (r: Dir4) {
        self.rotate_right()
    }

    fn rotate_left_90(self) -> (r: Dir4) {
        self.rotate_left()
    }

    fn opposite(self) -> (r: Dir4) {
        match self {
            Dir4::Up => Dir4::Down,
            Dir4::Down => Dir4::Up,
            Dir4::Left => Dir4::Right,
            Dir4::Right => Dir4::Left,
        }
    }

    fn iter() -> (r: Vec<Dir4>)
        ensures
            r@ =~= seq![Dir4::Up, Dir4::Right, Dir4::Down, Dir4::Left],
    {
        let mut r: Vec<Dir4> = Vec::new();
        r.push(Dir4::Up);
        r.push(Dir4::Right);
        r.push(Dir4::Down);
        r.push(Dir4::Left);
        r
    }
}

/// The four axis directions and the four diagonals between them.
#[derive(Copy, Clone, Debug, PartialEq, Eq, Hash, Structural)]
pub enum Dir8 {
    Dir4(Dir4),
    UpRight,
    UpLeft,
    DownRight,
    DownLeft,
}

impl Direction for Dir8 {
    open spec fn delta_spec(self) -> (int, int) {
        match self {
            Dir8::Dir4(d4) => d4.delta_spec(),
            Dir8::UpRight => (1, -1),
            Dir8::UpLeft => (-1, -1),
            Dir8::DownRight => (1, 1),
            Dir8::DownLeft => (-1, 1),
        }
    }

    open spec fn rotate_right_spec(self) -> Dir8 {
        match self {
            Dir8::Dir4(Dir4::Up) => Dir8::UpRight,
            Dir8::Dir4(Dir4::Down) => Dir8::DownLeft,
            Dir8::Dir4(Dir4::Left) => Dir8::UpLeft,
            Dir8::Dir4(Dir4::Right) => Dir8::DownRight,
            Dir8::UpRight => Dir8::Dir4(Dir4::Right),
            Dir8::UpLeft => Dir8::Dir4(Dir4::Up),
            Dir8::DownRight => Dir8::Dir4(Dir4::Down),
            Dir8::DownLeft => Dir8::Dir4(Dir4::Left),
        }
    }

    open spec fn rotate_left_spec(self) -> Dir8 {
        match self {
            Dir8::Dir4(Dir4::Up) => Dir8::UpLeft,
            Dir8::Dir4(Dir4::Down) => Dir8::DownRight,
            Dir8::Dir4(Dir4::Left) => Dir8::DownLeft,
            Dir8::Dir4(Dir4::Right) => Dir8::UpRight,
            Dir8::UpRight => Dir8::Dir4(Dir4::Up),
            Dir8::UpLeft => Dir8::Dir4(Dir4::Left),
            Dir8::DownRight => Dir8::Dir4(Dir4::Right),
            Dir8::DownLeft => Dir8::Dir4(Dir4::Down),
        }
    }

    open spec fn rotate_right_90_spec(self) -> Dir8 {
        match self {
            Dir8::Dir4(d4) => Dir8::Dir4(d4.rotate_right_spec()),
            Dir8::UpRight => Dir8::DownRight,
            Dir8::UpLeft => Dir8::UpRight,
            Dir8::DownRight => Dir8::DownLeft,
            Dir8::DownLeft => Dir8::UpLeft,
        }
    }

    open spec fn rotate_left_90_spec(self) -> Dir8 {
        match self {
            Dir8::Dir4(d4) => Dir8::Dir4(d4.rotate_left_spec()),
            Dir8::UpRight => Dir8::UpLeft,
            Dir8::UpLeft => Dir8::DownLeft,
            Dir8::DownRight => Dir8::UpRight,
            Dir8::DownLeft => Dir8::DownRight,
        }
    }

    open spec fn opposite_spec(self) -> Dir8 {
        match self {
            Dir8::Dir4(d4) => Dir8::Dir4(d4.opposite_spec()),
            Dir8::UpRight => Dir8::DownLeft,
            Dir8::UpLeft => Dir8::DownRight,
            Dir8::DownRight => Dir8::UpLeft,
            Dir8::DownLeft => Dir8::UpRight,
        }
    }

    fn delta(self) -> (r: (i8, i8)) {
        match self {
            Dir8::Dir4(d4) => d4.delta(),
            Dir8::UpRight => (1, -1),
            Dir8::UpLeft => (-1, -1),
            Dir8::DownRight => (1, 1),
            Dir8::DownLeft => (-1, 1),
        }
    }

    fn rotate_right(self) -> (r: Dir8) {
        match self {
            Dir8::Dir4(Dir4::Up) => Dir8::UpRight,
            Dir8::Dir4(Dir4::Down) => Dir8::DownLeft,
            Dir8::Dir4(Dir4::Left) => Dir8::UpLeft,
            Dir8::Dir4(Dir4::Right) => Dir8::DownRight,
            Dir8::UpRight => Dir8::Dir4(Dir4::Right),
            Dir8::UpLeft => Dir8::Dir4(Dir4::Up),
            Dir8::DownRight => Dir8::Dir4(Dir4::Down),
            Dir8::DownLeft => Dir8::Dir4(Dir4::Left),
        }
    }

    fn rotate_left(self) -> (r: Dir8) {
        match self {
            Dir8::Dir4(Dir4::Up) => Dir8::UpLeft,
            Dir8::Dir4(Dir4::Down) => Dir8::DownRight,
            Dir8::Dir4(Dir4::Left) => Dir8::DownLeft,
            Dir8::Dir4(Dir4::Right) => Dir8::UpRight,
            Dir8::UpRight => Dir8::Dir4(Dir4::Up),
            Dir8::UpLeft => Dir8::Dir4(Dir4::Left),
            Dir8::DownRight => Dir8::Dir4(Dir4::Right),
            Dir8::DownLeft => Dir8::Dir4(Dir4::Down),
        }
    }

    fn rotate_right_90(self) -> (r: Dir8) {
        match self {
            Dir8::Dir4(d4) => Dir8::Dir4(d4.rotate_right()),
            Dir8::UpRight => Dir8::DownRight,
            Dir8::UpLeft => Dir8::UpRight,
            Dir8::DownRight => Dir8::DownLeft,
            Dir8::DownLeft => Dir8::UpLeft,
        }
    }

    fn rotate_left_90(self) -> (r: Dir8) {
        match self {
            Dir8::Dir4(d4) => Dir8::Dir4(d4.rotate_left()),
            Dir8::UpRight => Dir8::UpLeft,
            Dir8::UpLeft => Dir8::DownLeft,
            Dir8::DownRight => Dir8::UpRight,
            Dir8::DownLeft => Dir8::DownRight,
        }
    }

    fn opposite(self) -> (r: Dir8) {
        match self {
            Dir8::Dir4(d4) => Dir8::Dir4(d4.opposite()),
            Dir8::UpRight => Dir8::DownLeft,
            Dir8::UpLeft => Dir8::DownRight,
            Dir8::DownRight => Dir8::UpLeft,
            Dir8::DownLeft => Dir8::UpRight,
        }
    }

    fn iter() -> (r: Vec<Dir8>)
        ensures
            r@ =~= seq![
                Dir8::Dir4(Dir4::Up),
                Dir8::UpRight,
                Dir8::Dir4(Dir4::Right),
                Dir8::DownRight,
                Dir8::Dir4(Dir4::Down),
                Dir8::DownLeft,
                Dir8::Dir4(Dir4::Left),
                Dir8::UpLeft,
            ],
    {
        let mut r: Vec<Dir8> = Vec::new();
        r.push(Dir8::Dir4(Dir4::Up));
        r.push(Dir8::UpRight);
        r.push(Dir8::Dir4(Dir4::Right));
        r.push(Dir8::DownRight);
        r.push(Dir8::Dir4(Dir4::Down));
        r.push(Dir8::DownLeft);
        r.push(Dir8::Dir4(Dir4::Left));
        r.push(Dir8::UpLeft);
        r
    }
}

/// Turning once left and once right, in either order, is the identity; so is
/// flipping twice.
pub proof fn lemma_dir4_rotation_laws(d: Dir4)
    ensures
        d.rotate_right_spec().rotate_left_spec() == d,
        d.rotate_left_spec().rotate_right_spec() == d,
        d.opposite_spec().opposite_spec() == d,
{
}

/// The same rotation laws for the eight directions.
pub proof fn lemma_dir8_rotation_laws(d: Dir8)
    ensures
        d.rotate_right_spec().rotate_left_spec() == d,
        d.rotate_left_spec().rotate_right_spec() == d,
        d.opposite_spec().opposite_spec() == d,
{
}

} // verus!
