use vstd::prelude::*;

verus! {

/// The six axis-aligned faces of a block. This one enumeration, in this order,
/// is shared by face culling and face drawing; per-face tables are indexed by
/// `index`.
#[derive(Clone, Copy, Debug, PartialEq, Eq, Structural)]
pub enum CubeFace {
    PlusX,
    PlusY,
    PlusZ,
    MinusX,
    MinusY,
    MinusZ,
}

impl CubeFace {
    pub open spec fn spec_index(self) -> int {
        match self {
            CubeFace::PlusX => 0,
            CubeFace::PlusY => 1,
            CubeFace::PlusZ => 2,
            CubeFace::MinusX => 3,
            CubeFace::MinusY => 4,
            CubeFace::MinusZ => 5,
        }
    }

    /// The unit step, in blocks, from a block to the neighbour behind this face.
    pub open spec fn step(self) -> (int, int, int) {
        match self {
            CubeFace::PlusX => (1, 0, 0),
            CubeFace::PlusY => (0, 1, 0),
            CubeFace::PlusZ => (0, 0, 1),
            CubeFace::MinusX => (-1, 0, 0),
            CubeFace::MinusY => (0, -1, 0),
            CubeFace::MinusZ => (0, 0, -1),
        }
    }

    /// Position of the face in per-face tables.
    pub fn index(self) -> (r: usize)
        ensures
            r == self.spec_index(),
            r < 6,
    {
        match self {
            CubeFace::PlusX => 0,
            CubeFace::PlusY => 1,
            CubeFace::PlusZ => 2,
            CubeFace::MinusX => 3,
            CubeFace::MinusY => 4,
            CubeFace::MinusZ => 5,
        }
    }

    /// The two axes that span the face, in the order that makes the corners
    /// `corner_signs` lists wind counter-clockwise seen from outside.
    pub open spec fn spec_span(self) -> (int, int) {
        match self {
            CubeFace::PlusX => (1, 2),
            CubeFace::PlusY => (2, 0),
            CubeFace::PlusZ => (0, 1),
            CubeFace::MinusX => (2, 1),
            CubeFace::MinusY => (0, 2),
            CubeFace::MinusZ => (1, 0),
        }
    }

    /// Sign of component `a` of corner `k` of the face, relative to the box
    /// centre in units of the half-extents: the face's own axis is fixed at
    /// its side, the spanning axes go (-, -), (+, -), (+, +), (-, +).
    pub open spec fn corner_sign(self, k: int, a: int) -> int {
        let (a1, a2) = self.spec_span();
        let step = self.step();
        if a == a1 {
            if k == 0 || k == 3 {
                -1
            } else {
                1
            }
        } else if a == a2 {
            if k == 0 || k == 1 {
                -1
            } else {
                1
            }
        } else if a == 0 {
            step.0
        } else if a == 1 {
            step.1
        } else {
            step.2
        }
    }

    /// The four corners of the face as signs of the box's half-extents, one
    /// `[x, y, z]` per corner, in drawing order.
    pub fn corner_signs(self) -> (r: [[i8; 3]; 4])
        ensures
            forall|k: int, a: int|
                0 <= k < 4 && 0 <= a < 3 ==> #[trigger] r[k][a] as int == self.corner_sign(k, a),
    {
        let r: [[i8; 3]; 4] = match self {
            CubeFace::PlusX => [[1, -1, -1], [1, 1, -1], [1, 1, 1], [1, -1, 1]],
            CubeFace::PlusY => [[-1, 1, -1], [-1, 1, 1], [1, 1, 1], [1, 1, -1]],
            CubeFace::PlusZ => [[-1, -1, 1], [1, -1, 1], [1, 1, 1], [-1, 1, 1]],
            CubeFace::MinusX => [[-1, -1, -1], [-1, -1, 1], [-1, 1, 1], [-1, 1, -1]],
            CubeFace::MinusY => [[-1, -1, -1], [1, -1, -1], [1, -1, 1], [-1, -1, 1]],
            CubeFace::MinusZ => [[-1, -1, -1], [-1, 1, -1], [1, 1, -1], [1, -1, -1]],
        };
        assert forall|k: int, a: int|
            0 <= k < 4 && 0 <= a < 3 implies #[trigger] r[k][a] as int == self.corner_sign(k, a) by {
            assert(k == 0 || k == 1 || k == 2 || k == 3);
            assert(a == 0 || a == 1 || a == 2);
        }
        r
    }
}

} // verus!
