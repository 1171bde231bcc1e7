use vstd::prelude::*;
use crate::block::Species;
use crate::chunk::{Chunk, Neighbours, in_chunk};

verus! {

/// A corner of a face, in block units relative to the chunk's origin.
pub type Vertex = (i32, i32, i32);

/// The side of cell `(x, y, z)` that shows: the cell is air and the cell
/// next to it on `side` is a solid block of species `neighbour`.
/// Sides are numbered 1 to 6: `+x`, `+z`, `-x`, `-z`, `+y`, `-y`.
#[derive(Clone, Copy, Debug, PartialEq, Eq, Structural)]
pub struct Face {
    pub x: i32,
    pub y: i32,
    pub z: i32,
    pub side: i32,
    pub neighbour: Species,
}

/// The step from a cell to the cell next to it on `side`.
pub open spec fn side_offset(side: int) -> (int, int, int) {
    if side == 1 {
        (1, 0, 0)
    } else if side == 2 {
        (0, 0, 1)
    } else if side == 3 {
        (-1, 0, 0)
    } else if side == 4 {
        (0, 0, -1)
    } else if side == 5 {
        (0, 1, 0)
    } else {
        (0, -1, 0)
    }
}

/// Corner `k` of the quad that face `f` is drawn as.
pub open spec fn face_corner(f: Face, k: int) -> Vertex {
    let (x0, y0, z0) = (f.x, f.y, f.z);
    let (x1, y1, z1) = ((f.x + 1) as i32, (f.y + 1) as i32, (f.z + 1) as i32);
    if f.side == 1 {
        seq![(x1, y0, z1), (x1, y1, z1), (x1, y1, z0), (x1, y0, z0)][k]
    } else if f.side == 2 {
        seq![(x0, y0, z1), (x0, y1, z1), (x1, y1, z1), (x1, y0, z1)][k]
    } else if f.side == 3 {
        seq![(x0, y0, z0), (x0, y1, z0), (x0, y1, z1), (x0, y0, z1)][k]
    } else if f.side == 4 {
        seq![(x1, y0, z0), (x1, y1, z0), (x0, y1, z0), (x0, y0, z0)][k]
    } else if f.side == 5 {
        seq![(x1, y1, z1), (x0, y1, z1), (x0, y1, z0), (x1, y1, z0)][k]
    } else {
        seq![(x1, y0, z0), (x0, y0, z0), (x0, y0, z1), (x1, y0, z1)][k]
    }
}

/// Corner `c` lies on the unit cube of cell `(x, y, z)`, in the plane of
/// the cube's side `side` (1 to 6: `+x`, `+z`, `-x`, `-z`, `+y`, `-y`).
pub open spec fn on_cell_side(c: Vertex, x: int, y: int, z: int, side: int) -> bool {
    &&& x <= c.0 <= x + 1
    &&& y <= c.1 <= y + 1
    &&& z <= c.2 <= z + 1
    &&& side == 1 ==> c.0 == x + 1
    &&& side == 2 ==> c.2 == z + 1
    &&& side == 3 ==> c.0 == x
    &&& side == 4 ==> c.2 == z
    &&& side == 5 ==> c.1 == y + 1
    &&& side == 6 ==> c.1 == y
}

/// The absolute value of `i`.
pub open spec fn abs(i: int) -> int {
    if i < 0 {
        -i
    } else {
        i
    }
}

/// `a` and `b` are the two ends of one edge of a unit cube: they differ by
/// one in exactly one coordinate.
pub open spec fn unit_edge(a: Vertex, b: Vertex) -> bool {
    abs(b.0 - a.0) + abs(b.1 - a.1) + abs(b.2 - a.2) == 1
}

/// The cross product of the edges `a -> b` and `b -> c`.
pub open spec fn turn(a: Vertex, b: Vertex, c: Vertex) -> (int, int, int) {
    let (u0, u1, u2) = (b.0 - a.0, b.1 - a.1, b.2 - a.2);
    let (v0, v1, v2) = (c.0 - b.0, c.1 - b.1, c.2 - b.2);
    (u1 * v2 - u2 * v1, u2 * v0 - u0 * v2, u0 * v1 - u1 * v0)
}

/// `q` is the square that covers side `side` of cell `(x, y, z)`: four
/// distinct corners on that side, each joined to the next (and the last to
/// the first) by an edge of the cube, turning so that the square faces into
/// the cell (its winding normal points from the side back to the cell).
/// The first corner is fixed too: on the four upright sides it is at the
/// bottom and the first edge goes up; on the top it is `(x + 1, y + 1,
/// z + 1)`, on the bottom `(x + 1, y, z)`.
#[verifier::opaque]
pub open spec fn covers_side(q: Seq<Vertex>, x: int, y: int, z: int, side: int) -> bool {
    &&& q.len() == 4
    &&& forall|k: int| 0 <= k < 4 ==> on_cell_side(#[trigger] q[k], x, y, z, side)
    &&& forall|j: int, k: int| 0 <= j < k < 4 ==> #[trigger] q[j] != #[trigger] q[k]
    &&& forall|k: int| 0 <= k < 4 ==> unit_edge(#[trigger] q[k], q[(k + 1) % 4])
    &&& turn(q[0], q[1], q[2]) == (if side == 1 {
        (-1int, 0int, 0int)
    } else if side == 2 {
        (0int, 0int, -1int)
    } else if side == 3 {
        (1int, 0int, 0int)
    } else if side == 4 {
        (0int, 0int, 1int)
    } else if side == 5 {
        (0int, -1int, 0int)
    } else {
        (0int, 1int, 0int)
    })
    &&& 1 <= side <= 4 ==> q[0].1 == y && q[1].1 == y + 1
    &&& side == 5 ==> (q[0].0 == x + 1 && q[0].1 == y + 1 && q[0].2 == z + 1)
    &&& side == 6 ==> (q[0].0 == x + 1 && q[0].1 == y && q[0].2 == z)
}

/// The corners of the quad of face `f`, in order.
pub open spec fn face_corners(f: Face) -> Seq<Vertex> {
    seq![face_corner(f, 0), face_corner(f, 1), face_corner(f, 2), face_corner(f, 3)]
}

/// The quad a face is drawn as is the unit square on that side of the
/// face's cell, facing into the cell.
pub proof fn lemma_face_corners_cover_side(f: Face)
    requires
        in_chunk(f.x as int, f.y as int, f.z as int),
        1 <= f.side <= 6,
    ensures
        covers_side(face_corners(f), f.x as int, f.y as int, f.z as int, f.side as int),
{
    let q = face_corners(f);
    if f.side == 1 {
        lemma_side_1(f.x, f.y, f.z);
        assert(q =~= side_square_1(f.x, f.y, f.z));
    } else if f.side == 2 {
        lemma_side_2(f.x, f.y, f.z);
        assert(q =~= side_square_2(f.x, f.y, f.z));
    } else if f.side == 3 {
        lemma_side_3(f.x, f.y, f.z);
        assert(q =~= side_square_3(f.x, f.y, f.z));
    } else if f.side == 4 {
        lemma_side_4(f.x, f.y, f.z);
        assert(q =~= side_square_4(f.x, f.y, f.z));
    } else if f.side == 5 {
        lemma_side_5(f.x, f.y, f.z);
        assert(q =~= side_square_5(f.x, f.y, f.z));
    } else if f.side == 6 {
        lemma_side_6(f.x, f.y, f.z);
        assert(q =~= side_square_6(f.x, f.y, f.z));
    }
}

spec fn side_square_1(x0: i32, y0: i32, z0: i32) -> Seq<Vertex> {
    let (x1, y1, z1) = ((x0 + 1) as i32, (y0 + 1) as i32, (z0 + 1) as i32);
    seq![(x1, y0, z1), (x1, y1, z1), (x1, y1, z0), (x1, y0, z0)]
}

proof fn lemma_side_1(x0: i32, y0: i32, z0: i32)
    requires
        in_chunk(x0 as int, y0 as int, z0 as int),
    ensures
        covers_side(side_square_1(x0, y0, z0), x0 as int, y0 as int, z0 as int, 1),
{
    reveal(covers_side);
    let q = side_square_1(x0, y0, z0);
    let (x, y, z) = (x0 as int, y0 as int, z0 as int);
    assert((x0 + 1) as i32 == x + 1 && (y0 + 1) as i32 == y + 1 && (z0 + 1) as i32 == z + 1);
    assert forall|j: int| 0 <= j < 4 implies on_cell_side(#[trigger] q[j], x, y, z, 1) by {
        if j == 0 {
        } else if j == 1 {
        } else if j == 2 {
        } else {
        }
    }
    assert forall|i: int, j: int| 0 <= i < j < 4 implies #[trigger] q[i] != #[trigger] q[j] by {
        if i == 0 {
        } else if i == 1 {
        } else {
        }
    }
    assert(unit_edge(q[0], q[1]));
    assert(unit_edge(q[1], q[2]));
    assert(unit_edge(q[2], q[3]));
    assert(unit_edge(q[3], q[0]));
    assert forall|j: int| 0 <= j < 4 implies unit_edge(#[trigger] q[j], q[(j + 1) % 4]) by {
        if j == 0 {
            assert((j + 1) % 4 == 1);
        } else if j == 1 {
            assert((j + 1) % 4 == 2);
        } else if j == 2 {
            assert((j + 1) % 4 == 3);
        } else {
            assert((j + 1) % 4 == 0);
        }
    }
    let (a, b, c) = (q[0], q[1], q[2]);
    let (u0, u1, u2) = (b.0 - a.0, b.1 - a.1, b.2 - a.2);
    let (v0, v1, v2) = (c.0 - b.0, c.1 - b.1, c.2 - b.2);
    assert(-1 <= u0 <= 1 && -1 <= u1 <= 1 && -1 <= u2 <= 1 && -1 <= v0 <= 1 && -1 <= v1 <= 1 && -1 <= v2 <= 1);
    assert((u1 * v2 - u2 * v1, u2 * v0 - u0 * v2, u0 * v1 - u1 * v0) == (-1int, 0int, 0int)) by (nonlinear_arith)
        requires
            u0 == b.0 - a.0, u1 == b.1 - a.1, u2 == b.2 - a.2,
            v0 == c.0 - b.0, v1 == c.1 - b.1, v2 == c.2 - b.2,
            a == q[0], b == q[1], c == q[2],
            q == side_square_1(x0, y0, z0),
            (x0 + 1) as i32 == x + 1, (y0 + 1) as i32 == y + 1, (z0 + 1) as i32 == z + 1,
            x == x0 as int, y == y0 as int, z == z0 as int,
    ;
    assert(turn(q[0], q[1], q[2]) == (-1int, 0int, 0int));
}

spec fn side_square_2(x0: i32, y0: i32, z0: i32) -> Seq<Vertex> {
    let (x1, y1, z1) = ((x0 + 1) as i32, (y0 + 1) as i32, (z0 + 1) as i32);
    seq![(x0, y0, z1), (x0, y1, z1), (x1, y1, z1), (x1, y0, z1)]
}

proof fn lemma_side_2(x0: i32, y0: i32, z0: i32)
    requires
        in_chunk(x0 as int, y0 as int, z0 as int),
    ensures
        covers_side(side_square_2(x0, y0, z0), x0 as int, y0 as int, z0 as int, 2),
{
    reveal(covers_side);
    let q = side_square_2(x0, y0, z0);
    let (x, y, z) = (x0 as int, y0 as int, z0 as int);
    assert((x0 + 1) as i32 == x + 1 && (y0 + 1) as i32 == y + 1 && (z0 + 1) as i32 == z + 1);
    assert forall|j: int| 0 <= j < 4 implies on_cell_side(#[trigger] q[j], x, y, z, 2) by {
        if j == 0 {
        } else if j == 1 {
        } else if j == 2 {
        } else {
        }
    }
    assert forall|i: int, j: int| 0 <= i < j < 4 implies #[trigger] q[i] != #[trigger] q[j] by {
        if i == 0 {
        } else if i == 1 {
        } else {
        }
    }
    assert(unit_edge(q[0], q[1]));
    assert(unit_edge(q[1], q[2]));
    assert(unit_edge(q[2], q[3]));
    assert(unit_edge(q[3], q[0]));
    assert forall|j: int| 0 <= j < 4 implies unit_edge(#[trigger] q[j], q[(j + 1) % 4]) by {
        if j == 0 {
            assert((j + 1) % 4 == 1);
        } else if j == 1 {
            assert((j + 1) % 4 == 2);
        } else if j == 2 {
            assert((j + 1) % 4 == 3);
        } else {
            assert((j + 1) % 4 == 0);
        }
    }
    let (a, b, c) = (q[0], q[1], q[2]);
    let (u0, u1, u2) = (b.0 - a.0, b.1 - a.1, b.2 - a.2);
    let (v0, v1, v2) = (c.0 - b.0, c.1 - b.1, c.2 - b.2);
    assert(-1 <= u0 <= 1 && -1 <= u1 <= 1 && -1 <= u2 <= 1 && -1 <= v0 <= 1 && -1 <= v1 <= 1 && -1 <= v2 <= 1);
    assert((u1 * v2 - u2 * v1, u2 * v0 - u0 * v2, u0 * v1 - u1 * v0) == (0int, 0int, -1int)) by (nonlinear_arith)
        requires
            u0 == b.0 - a.0, u1 == b.1 - a.1, u2 == b.2 - a.2,
            v0 == c.0 - b.0, v1 == c.1 - b.1, v2 == c.2 - b.2,
            a == q[0], b == q[1], c == q[2],
            q == side_square_2(x0, y0, z0),
            (x0 + 1) as i32 == x + 1, (y0 + 1) as i32 == y + 1, (z0 + 1) as i32 == z + 1,
            x == x0 as int, y == y0 as int, z == z0 as int,
    ;
    assert(turn(q[0], q[1], q[2]) == (0int, 0int, -1int));
}

spec fn side_square_3(x0: i32, y0: i32, z0: i32) -> Seq<Vertex> {
    let (x1, y1, z1) = ((x0 + 1) as i32, (y0 + 1) as i32, (z0 + 1) as i32);
    seq![(x0, y0, z0), (x0, y1, z0), (x0, y1, z1), (x0, y0, z1)]
}

proof fn lemma_side_3(x0: i32, y0: i32, z0: i32)
    requires
        in_chunk(x0 as int, y0 as int, z0 as int),
    ensures
        covers_side(side_square_3(x0, y0, z0), x0 as int, y0 as int, z0 as int, 3),
{
    reveal(covers_side);
    let q = side_square_3(x0, y0, z0);
    let (x, y, z) = (x0 as int, y0 as int, z0 as int);
    assert((x0 + 1) as i32 == x + 1 && (y0 + 1) as i32 == y + 1 && (z0 + 1) as i32 == z + 1);
    assert forall|j: int| 0 <= j < 4 implies on_cell_side(#[trigger] q[j], x, y, z, 3) by {
        if j == 0 {
        } else if j == 1 {
        } else if j == 2 {
        } else {
        }
    }
    assert forall|i: int, j: int| 0 <= i < j < 4 implies #[trigger] q[i] != #[trigger] q[j] by {
        if i == 0 {
        } else if i == 1 {
        } else {
        }
    }
    assert(unit_edge(q[0], q[1]));
    assert(unit_edge(q[1], q[2]));
    assert(unit_edge(q[2], q[3]));
    assert(unit_edge(q[3], q[0]));
    assert forall|j: int| 0 <= j < 4 implies unit_edge(#[trigger] q[j], q[(j + 1) % 4]) by {
        if j == 0 {
            assert((j + 1) % 4 == 1);
        } else if j == 1 {
            assert((j + 1) % 4 == 2);
        } else if j == 2 {
            assert((j + 1) % 4 == 3);
        } else {
            assert((j + 1) % 4 == 0);
        }
    }
    let (a, b, c) = (q[0], q[1], q[2]);
    let (u0, u1, u2) = (b.0 - a.0, b.1 - a.1, b.2 - a.2);
    let (v0, v1, v2) = (c.0 - b.0, c.1 - b.1, c.2 - b.2);
    assert(-1 <= u0 <= 1 && -1 <= u1 <= 1 && -1 <= u2 <= 1 && -1 <= v0 <= 1 && -1 <= v1 <= 1 && -1 <= v2 <= 1);
    assert((u1 * v2 - u2 * v1, u2 * v0 - u0 * v2, u0 * v1 - u1 * v0) == (1int, 0int, 0int)) by (nonlinear_arith)
        requires
            u0 == b.0 - a.0, u1 == b.1 - a.1, u2 == b.2 - a.2,
            v0 == c.0 - b.0, v1 == c.1 - b.1, v2 == c.2 - b.2,
            a == q[0], b == q[1], c == q[2],
            q == side_square_3(x0, y0, z0),
            (x0 + 1) as i32 == x + 1, (y0 + 1) as i32 == y + 1, (z0 + 1) as i32 == z + 1,
            x == x0 as int, y == y0 as int, z == z0 as int,
    ;
    assert(turn(q[0], q[1], q[2]) == (1int, 0int, 0int));
}

spec fn side_square_4(x0: i32, y0: i32, z0: i32) -> Seq<Vertex> {
    let (x1, y1, z1) = ((x0 + 1) as i32, (y0 + 1) as i32, (z0 + 1) as i32);
    seq![(x1, y0, z0), (x1, y1, z0), (x0, y1, z0), (x0, y0, z0)]
}

proof fn lemma_side_4(x0: i32, y0: i32, z0: i32)
    requires
        in_chunk(x0 as int, y0 as int, z0 as int),
    ensures
        covers_side(side_square_4(x0, y0, z0), x0 as int, y0 as int, z0 as int, 4),
{
    reveal(covers_side);
    let q = side_square_4(x0, y0, z0);
    let (x, y, z) = (x0 as int, y0 as int, z0 as int);
    assert((x0 + 1) as i32 == x + 1 && (y0 + 1) as i32 == y + 1 && (z0 + 1) as i32 == z + 1);
    assert forall|j: int| 0 <= j < 4 implies on_cell_side(#[trigger] q[j], x, y, z, 4) by {
        if j == 0 {
        } else if j == 1 {
        } else if j == 2 {
        } else {
        }
    }
    assert forall|i: int, j: int| 0 <= i < j < 4 implies #[trigger] q[i] != #[trigger] q[j] by {
        if i == 0 {
        } else if i == 1 {
        } else {
        }
    }
    assert(unit_edge(q[0], q[1]));
    assert(unit_edge(q[1], q[2]));
    assert(unit_edge(q[2], q[3]));
    assert(unit_edge(q[3], q[0]));
    assert forall|j: int| 0 <= j < 4 implies unit_edge(#[trigger] q[j], q[(j + 1) % 4]) by {
        if j == 0 {
            assert((j + 1) % 4 == 1);
        } else if j == 1 {
            assert((j + 1) % 4 == 2);
        } else if j == 2 {
            assert((j + 1) % 4 == 3);
        } else {
            assert((j + 1) % 4 == 0);
        }
    }
    let (a, b, c) = (q[0], q[1], q[2]);
    let (u0, u1, u2) = (b.0 - a.0, b.1 - a.1, b.2 - a.2);
    let (v0, v1, v2) = (c.0 - b.0, c.1 - b.1, c.2 - b.2);
    assert(-1 <= u0 <= 1 && -1 <= u1 <= 1 && -1 <= u2 <= 1 && -1 <= v0 <= 1 && -1 <= v1 <= 1 && -1 <= v2 <= 1);
    assert((u1 * v2 - u2 * v1, u2 * v0 - u0 * v2, u0 * v1 - u1 * v0) == (0int, 0int, 1int)) by (nonlinear_arith)
        requires
            u0 == b.0 - a.0, u1 == b.1 - a.1, u2 == b.2 - a.2,
            v0 == c.0 - b.0, v1 == c.1 - b.1, v2 == c.2 - b.2,
            a == q[0], b == q[1], c == q[2],
            q == side_square_4(x0, y0, z0),
            (x0 + 1) as i32 == x + 1, (y0 + 1) as i32 == y + 1, (z0 + 1) as i32 == z + 1,
            x == x0 as int, y == y0 as int, z == z0 as int,
    ;
    assert(turn(q[0], q[1], q[2]) == (0int, 0int, 1int));
}

spec fn side_square_5(x0: i32, y0: i32, z0: i32) -> Seq<Vertex> {
    let (x1, y1, z1) = ((x0 + 1) as i32, (y0 + 1) as i32, (z0 + 1) as i32);
    seq![(x1, y1, z1), (x0, y1, z1), (x0, y1, z0), (x1, y1, z0)]
}

proof fn lemma_side_5(x0: i32, y0: i32, z0: i32)
    requires
        in_chunk(x0 as int, y0 as int, z0 as int),
    ensures
        covers_side(side_square_5(x0, y0, z0), x0 as int, y0 as int, z0 as int, 5),
{
    reveal(covers_side);
    let q = side_square_5(x0, y0, z0);
    let (x, y, z) = (x0 as int, y0 as int, z0 as int);
    assert((x0 + 1) as i32 == x + 1 && (y0 + 1) as i32 == y + 1 && (z0 + 1) as i32 == z + 1);
    assert forall|j: int| 0 <= j < 4 implies on_cell_side(#[trigger] q[j], x, y, z, 5) by {
        if j == 0 {
        } else if j == 1 {
        } else if j == 2 {
        } else {
        }
    }
    assert forall|i: int, j: int| 0 <= i < j < 4 implies #[trigger] q[i] != #[trigger] q[j] by {
        if i == 0 {
        } else if i == 1 {
        } else {
        }
    }
    assert(unit_edge(q[0], q[1]));
    assert(unit_edge(q[1], q[2]));
    assert(unit_edge(q[2], q[3]));
    assert(unit_edge(q[3], q[0]));
    assert forall|j: int| 0 <= j < 4 implies unit_edge(#[trigger] q[j], q[(j + 1) % 4]) by {
        if j == 0 {
            assert((j + 1) % 4 == 1);
        } else if j == 1 {
            assert((j + 1) % 4 == 2);
        } else if j == 2 {
            assert((j + 1) % 4 == 3);
        } else {
            assert((j + 1) % 4 == 0);
        }
    }
    let (a, b, c) = (q[0], q[1], q[2]);
    let (u0, u1, u2) = (b.0 - a.0, b.1 - a.1, b.2 - a.2);
    let (v0, v1, v2) = (c.0 - b.0, c.1 - b.1, c.2 - b.2);
    assert(-1 <= u0 <= 1 && -1 <= u1 <= 1 && -1 <= u2 <= 1 && -1 <= v0 <= 1 && -1 <= v1 <= 1 && -1 <= v2 <= 1);
    assert((u1 * v2 - u2 * v1, u2 * v0 - u0 * v2, u0 * v1 - u1 * v0) == (0int, -1int, 0int)) by (nonlinear_arith)
        requires
            u0 == b.0 - a.0, u1 == b.1 - a.1, u2 == b.2 - a.2,
            v0 == c.0 - b.0, v1 == c.1 - b.1, v2 == c.2 - b.2,
            a == q[0], b == q[1], c == q[2],
            q == side_square_5(x0, y0, z0),
            (x0 + 1) as i32 == x + 1, (y0 + 1) as i32 == y + 1, (z0 + 1) as i32 == z + 1,
            x == x0 as int, y == y0 as int, z == z0 as int,
    ;
    assert(turn(q[0], q[1], q[2]) == (0int, -1int, 0int));
}

spec fn side_square_6(x0: i32, y0: i32, z0: i32) -> Seq<Vertex> {
    let (x1, y1, z1) = ((x0 + 1) as i32, (y0 + 1) as i32, (z0 + 1) as i32);
    seq![(x1, y0, z0), (x0, y0, z0), (x0, y0, z1), (x1, y0, z1)]
}

proof fn lemma_side_6(x0: i32, y0: i32, z0: i32)
    requires
        in_chunk(x0 as int, y0 as int, z0 as int),
    ensures
        covers_side(side_square_6(x0, y0, z0), x0 as int, y0 as int, z0 as int, 6),
{
    reveal(covers_side);
    let q = side_square_6(x0, y0, z0);
    let (x, y, z) = (x0 as int, y0 as int, z0 as int);
    assert((x0 + 1) as i32 == x + 1 && (y0 + 1) as i32 == y + 1 && (z0 + 1) as i32 == z + 1);
    assert forall|j: int| 0 <= j < 4 implies on_cell_side(#[trigger] q[j], x, y, z, 6) by {
        if j == 0 {
        } else if j == 1 {
        } else if j == 2 {
        } else {
        }
    }
    assert forall|i: int, j: int| 0 <= i < j < 4 implies #[trigger] q[i] != #[trigger] q[j] by {
        if i == 0 {
        } else if i == 1 {
        } else {
        }
    }
    assert(unit_edge(q[0], q[1]));
    assert(unit_edge(q[1], q[2]));
    assert(unit_edge(q[2], q[3]));
    assert(unit_edge(q[3], q[0]));
    assert forall|j: int| 0 <= j < 4 implies unit_edge(#[trigger] q[j], q[(j + 1) % 4]) by {
        if j == 0 {
            assert((j + 1) % 4 == 1);
        } else if j == 1 {
            assert((j + 1) % 4 == 2);
        } else if j == 2 {
            assert((j + 1) % 4 == 3);
        } else {
            assert((j + 1) % 4 == 0);
        }
    }
    let (a, b, c) = (q[0], q[1], q[2]);
    let (u0, u1, u2) = (b.0 - a.0, b.1 - a.1, b.2 - a.2);
    let (v0, v1, v2) = (c.0 - b.0, c.1 - b.1, c.2 - b.2);
    assert(-1 <= u0 <= 1 && -1 <= u1 <= 1 && -1 <= u2 <= 1 && -1 <= v0 <= 1 && -1 <= v1 <= 1 && -1 <= v2 <= 1);
    assert((u1 * v2 - u2 * v1, u2 * v0 - u0 * v2, u0 * v1 - u1 * v0) == (0int, 1int, 0int)) by (nonlinear_arith)
        requires
            u0 == b.0 - a.0, u1 == b.1 - a.1, u2 == b.2 - a.2,
            v0 == c.0 - b.0, v1 == c.1 - b.1, v2 == c.2 - b.2,
            a == q[0], b == q[1], c == q[2],
            q == side_square_6(x0, y0, z0),
            (x0 + 1) as i32 == x + 1, (y0 + 1) as i32 == y + 1, (z0 + 1) as i32 == z + 1,
            x == x0 as int, y == y0 as int, z == z0 as int,
    ;
    assert(turn(q[0], q[1], q[2]) == (0int, 1int, 0int));
}

/// The four corners of the quad that face `f` is drawn as.
pub fn face_quad(f: &Face) -> (q: [Vertex; 4])
    requires
        in_chunk(f.x as int, f.y as int, f.z as int),
    ensures
        forall|k: int| 0 <= k < 4 ==> #[trigger] q@[k] == face_corner(*f, k),
        1 <= f.side <= 6 ==> covers_side(q@, f.x as int, f.y as int, f.z as int, f.side as int),
{
    let (x0, y0, z0) = (f.x, f.y, f.z);
    let (x1, y1, z1) = (f.x + 1, f.y + 1, f.z + 1);
    let q = if f.side == 1 {
        [(x1, y0, z1), (x1, y1, z1), (x1, y1, z0), (x1, y0, z0)]
    } else if f.side == 2 {
        [(x0, y0, z1), (x0, y1, z1), (x1, y1, z1), (x1, y0, z1)]
    } else if f.side == 3 {
        [(x0, y0, z0), (x0, y1, z0), (x0, y1, z1), (x0, y0, z1)]
    } else if f.side == 4 {
        [(x1, y0, z0), (x1, y1, z0), (x0, y1, z0), (x0, y0, z0)]
    } else if f.side == 5 {
        [(x1, y1, z1), (x0, y1, z1), (x0, y1, z0), (x1, y1, z0)]
    } else {
        [(x1, y0, z0), (x0, y0, z0), (x0, y0, z1), (x1, y0, z1)]
    };
    proof {
        assert(q@ =~= face_corners(*f));
        if 1 <= f.side <= 6 {
            lemma_face_corners_cover_side(*f);
        }
    }
    q
}

/// The `second` (else first) triangle of a quad whose corners are numbered
/// from `base`: corners 0, 1, 2, then 0, 2, 3.
pub open spec fn quad_triangle(base: int, second: bool) -> Seq<u32> {
    if second {
        seq![base as u32, (base + 2) as u32, (base + 3) as u32]
    } else {
        seq![base as u32, (base + 1) as u32, (base + 2) as u32]
    }
}

/// The six indices of a quad whose corners are numbered from `base`, two
/// triangles in a row: 0, 1, 2, 0, 2, 3.
pub open spec fn quad_indices(base: int) -> Seq<u32> {
    quad_triangle(base, false) + quad_triangle(base, true)
}

/// The normal a mesh gives the quad of a face on `side`.
pub open spec fn side_normal(side: int) -> Vertex {
    if side == 1 {
        (-1i32, 0i32, 0i32)
    } else if side == 2 {
        (0, 0, 1)
    } else if side == 3 {
        (-1i32, 0i32, 0i32)
    } else if side == 4 {
        (0i32, 0i32, -1i32)
    } else if side == 5 {
        (0i32, -1i32, 0i32)
    } else {
        (0, 1, 0)
    }
}

/// What the texture of a face is looked up by: the species of the block it
/// faces and its side.
#[derive(Clone, Copy, Debug, PartialEq, Eq, Structural)]
pub struct UvKey {
    pub species: Species,
    pub side: i32,
}

/// The corners, triangles and normals of a mesh, and one texture key per
/// quad (four corners each).
pub struct MeshData {
    pub vertices: Vec<Vertex>,
    pub normals: Vec<Vertex>,
    pub indices: Vec<u32>,
    pub uv: Vec<UvKey>,
}

/// What one sequence holds, its concatenation with another holds too.
proof fn lemma_concat_contains<T>(a: Seq<T>, b: Seq<T>, e: T)
    ensures
        a.contains(e) || b.contains(e) ==> (a + b).contains(e),
{
    if a.contains(e) {
        let i = choose|i: int| 0 <= i < a.len() && a[i] == e;
        assert((a + b)[i] == e);
    } else {
        if b.contains(e) {
            let i = choose|i: int| 0 <= i < b.len() && b[i] == e;
            assert((a + b)[a.len() + i] == e);
        }
    }
}

impl Chunk {
    /// The face that cell `(x, y, z)` shows on `side`, if the cell next to it
    /// there is not air.
    #[verifier::opaque]
    pub open spec fn face_toward(self, nb: Neighbours, x: int, y: int, z: int, side: int) -> Seq<Face> {
        let (dx, dy, dz) = side_offset(side);
        let s = self.species_at(x + dx, y + dy, z + dz, nb);
        if s != Species::Air {
            seq![Face { x: x as i32, y: y as i32, z: z as i32, side: side as i32, neighbour: s }]
        } else {
            seq![]
        }
    }

    /// The faces an air cell shows, side 1 first; a solid cell shows none.
    pub open spec fn cell_faces(self, nb: Neighbours, x: int, y: int, z: int) -> Seq<Face> {
        if self.species_at(x, y, z, nb) != Species::Air {
            seq![]
        } else {
            self.face_toward(nb, x, y, z, 1) + self.face_toward(nb, x, y, z, 2) + self.face_toward(
                nb,
                x,
                y,
                z,
                3,
            ) + self.face_toward(nb, x, y, z, 4) + self.face_toward(nb, x, y, z, 5)
                + self.face_toward(nb, x, y, z, 6)
        }
    }

    /// The faces of cells `z < n` of row `(y, x)`, in order of `z`.
    pub open spec fn row_faces(self, nb: Neighbours, y: int, x: int, n: int) -> Seq<Face>
        decreases n,
    {
        if n <= 0 {
            seq![]
        } else {
            self.row_faces(nb, y, x, n - 1) + self.cell_faces(nb, x, y, n - 1)
        }
    }

    /// The faces of rows `x < n` of layer `y`, in order of `x`.
    pub open spec fn layer_faces(self, nb: Neighbours, y: int, n: int) -> Seq<Face>
        decreases n,
    {
        if n <= 0 {
            seq![]
        } else {
            self.layer_faces(nb, y, n - 1) + self.row_faces(nb, y, n - 1, 8)
        }
    }

    /// The faces of layers `y < n`, in order of `y`.
    pub open spec fn faces_below(self, nb: Neighbours, n: int) -> Seq<Face>
        decreases n,
    {
        if n <= 0 {
            seq![]
        } else {
            self.faces_below(nb, n - 1) + self.layer_faces(nb, n - 1, 8)
        }
    }

    /// Every face the chunk shows, cell by cell (`y` outermost, then `x`,
    /// then `z`) and side by side.
    pub open spec fn visible_faces(self, nb: Neighbours) -> Seq<Face> {
        self.faces_below(nb, 256)
    }

    /// A cell shows at most six faces.
    proof fn lemma_cell_faces_len(self, nb: Neighbours, x: int, y: int, z: int)
        ensures
            self.cell_faces(nb, x, y, z).len() <= 6,
    {
        reveal(Chunk::face_toward);
    }

    /// A row of `n` cells shows at most `6 * n` faces.
    proof fn lemma_row_faces_len(self, nb: Neighbours, y: int, x: int, n: int)
        requires
            0 <= n,
        ensures
            self.row_faces(nb, y, x, n).len() <= 6 * n,
        decreases n,
    {
        if n > 0 {
            self.lemma_row_faces_len(nb, y, x, n - 1);
            self.lemma_cell_faces_len(nb, x, y, n - 1);
        }
    }

    /// `n` rows show at most `48 * n` faces.
    proof fn lemma_layer_faces_len(self, nb: Neighbours, y: int, n: int)
        requires
            0 <= n,
        ensures
            self.layer_faces(nb, y, n).len() <= 48 * n,
        decreases n,
    {
        if n > 0 {
            self.lemma_layer_faces_len(nb, y, n - 1);
            self.lemma_row_faces_len(nb, y, n - 1, 8);
        }
    }

    /// `n` layers show at most `384 * n` faces.
    proof fn lemma_faces_below_len(self, nb: Neighbours, n: int)
        requires
            0 <= n,
        ensures
            self.faces_below(nb, n).len() <= 384 * n,
        decreases n,
    {
        if n > 0 {
            self.lemma_faces_below_len(nb, n - 1);
            self.lemma_layer_faces_len(nb, n - 1, 8);
        }
    }

    /// Face `f` really shows: it sits on an air cell of the chunk, and the
    /// cell next to it on its side is of species `f.neighbour`, which is not
    /// air.
    pub open spec fn face_shows(self, nb: Neighbours, f: Face) -> bool {
        let (dx, dy, dz) = side_offset(f.side as int);
        &&& in_chunk(f.x as int, f.y as int, f.z as int)
        &&& 1 <= f.side <= 6
        &&& self.species_at(f.x as int, f.y as int, f.z as int, nb) == Species::Air
        &&& f.neighbour != Species::Air
        &&& f.neighbour == self.species_at(f.x + dx, f.y + dy, f.z + dz, nb)
    }

    proof fn lemma_cell_faces_show(self, nb: Neighbours, x: int, y: int, z: int)
        requires
            in_chunk(x, y, z),
        ensures
            forall|i: int|
                0 <= i < self.cell_faces(nb, x, y, z).len() ==> self.face_shows(
                    nb,
                    #[trigger] self.cell_faces(nb, x, y, z)[i],
                ),
    {
        reveal(Chunk::face_toward);
    }

    proof fn lemma_row_faces_show(self, nb: Neighbours, y: int, x: int, n: int)
        requires
            0 <= y < 256,
            0 <= x < 8,
            0 <= n <= 8,
        ensures
            forall|i: int|
                0 <= i < self.row_faces(nb, y, x, n).len() ==> self.face_shows(
                    nb,
                    #[trigger] self.row_faces(nb, y, x, n)[i],
                ),
        decreases n,
    {
        if n > 0 {
            self.lemma_row_faces_show(nb, y, x, n - 1);
            self.lemma_cell_faces_show(nb, x, y, n - 1);
            let a = self.row_faces(nb, y, x, n - 1);
            let b = self.cell_faces(nb, x, y, n - 1);
            assert forall|i: int| 0 <= i < (a + b).len() implies self.face_shows(nb, #[trigger] (a + b)[i]) by {
                if i < a.len() {
                    assert((a + b)[i] == a[i]);
                } else {
                    assert((a + b)[i] == b[i - a.len()]);
                }
            }
        }
    }

    proof fn lemma_layer_faces_show(self, nb: Neighbours, y: int, n: int)
        requires
            0 <= y < 256,
            0 <= n <= 8,
        ensures
            forall|i: int|
                0 <= i < self.layer_faces(nb, y, n).len() ==> self.face_shows(
                    nb,
                    #[trigger] self.layer_faces(nb, y, n)[i],
                ),
        decreases n,
    {
        if n > 0 {
            self.lemma_layer_faces_show(nb, y, n - 1);
            self.lemma_row_faces_show(nb, y, n - 1, 8);
            let a = self.layer_faces(nb, y, n - 1);
            let b = self.row_faces(nb, y, n - 1, 8);
            assert forall|i: int| 0 <= i < (a + b).len() implies self.face_shows(nb, #[trigger] (a + b)[i]) by {
                if i < a.len() {
                    assert((a + b)[i] == a[i]);
                } else {
                    assert((a + b)[i] == b[i - a.len()]);
                }
            }
        }
    }

    proof fn lemma_faces_below_show(self, nb: Neighbours, n: int)
        requires
            0 <= n <= 256,
        ensures
            forall|i: int|
                0 <= i < self.faces_below(nb, n).len() ==> self.face_shows(
                    nb,
                    #[trigger] self.faces_below(nb, n)[i],
                ),
        decreases n,
    {
        if n > 0 {
            self.lemma_faces_below_show(nb, n - 1);
            self.lemma_layer_faces_show(nb, n - 1, 8);
            let a = self.faces_below(nb, n - 1);
            let b = self.layer_faces(nb, n - 1, 8);
            assert forall|i: int| 0 <= i < (a + b).len() implies self.face_shows(nb, #[trigger] (a + b)[i]) by {
                if i < a.len() {
                    assert((a + b)[i] == a[i]);
                } else {
                    assert((a + b)[i] == b[i - a.len()]);
                }
            }
        }
    }

    /// Every face that meshing produces shows: it lies on an air cell of the
    /// chunk and faces a solid block.
    pub proof fn lemma_visible_faces_show(self, nb: Neighbours)
        ensures
            forall|i: int|
                0 <= i < self.visible_faces(nb).len() ==> self.face_shows(
                    nb,
                    #[trigger] self.visible_faces(nb)[i],
                ),
    {
        self.lemma_faces_below_show(nb, 256);
    }

    /// The face that an air cell shows toward a solid neighbour on `side`.
    pub open spec fn expected_face(self, nb: Neighbours, x: int, y: int, z: int, side: int) -> Face {
        let (dx, dy, dz) = side_offset(side);
        Face {
            x: x as i32,
            y: y as i32,
            z: z as i32,
            side: side as i32,
            neighbour: self.species_at(x + dx, y + dy, z + dz, nb),
        }
    }

    proof fn lemma_cell_faces_complete(self, nb: Neighbours, x: int, y: int, z: int, side: int)
        requires
            in_chunk(x, y, z),
            1 <= side <= 6,
            self.species_at(x, y, z, nb) == Species::Air,
            self.expected_face(nb, x, y, z, side).neighbour != Species::Air,
        ensures
            self.cell_faces(nb, x, y, z).contains(self.expected_face(nb, x, y, z, side)),
    {
        reveal(Chunk::face_toward);
        let e = self.expected_face(nb, x, y, z, side);
        let f1 = self.face_toward(nb, x, y, z, 1);
        let f2 = self.face_toward(nb, x, y, z, 2);
        let f3 = self.face_toward(nb, x, y, z, 3);
        let f4 = self.face_toward(nb, x, y, z, 4);
        let f5 = self.face_toward(nb, x, y, z, 5);
        let f6 = self.face_toward(nb, x, y, z, 6);
        assert(self.face_toward(nb, x, y, z, side)[0] == e);
        assert(self.face_toward(nb, x, y, z, side).contains(e));
        lemma_concat_contains(f1, f2, e);
        lemma_concat_contains(f1 + f2, f3, e);
        lemma_concat_contains(f1 + f2 + f3, f4, e);
        lemma_concat_contains(f1 + f2 + f3 + f4, f5, e);
        lemma_concat_contains(f1 + f2 + f3 + f4 + f5, f6, e);
    }

    proof fn lemma_row_faces_complete(self, nb: Neighbours, x: int, y: int, z: int, side: int, n: int)
        requires
            in_chunk(x, y, z),
            z < n,
            1 <= side <= 6,
            self.species_at(x, y, z, nb) == Species::Air,
            self.expected_face(nb, x, y, z, side).neighbour != Species::Air,
        ensures
            self.row_faces(nb, y, x, n).contains(self.expected_face(nb, x, y, z, side)),
        decreases n,
    {
        let e = self.expected_face(nb, x, y, z, side);
        if z == n - 1 {
            self.lemma_cell_faces_complete(nb, x, y, z, side);
        } else {
            self.lemma_row_faces_complete(nb, x, y, z, side, n - 1);
        }
        lemma_concat_contains(self.row_faces(nb, y, x, n - 1), self.cell_faces(nb, x, y, n - 1), e);
    }

    proof fn lemma_layer_faces_complete(self, nb: Neighbours, x: int, y: int, z: int, side: int, n: int)
        requires
            in_chunk(x, y, z),
            x < n,
            1 <= side <= 6,
            self.species_at(x, y, z, nb) == Species::Air,
            self.expected_face(nb, x, y, z, side).neighbour != Species::Air,
        ensures
            self.layer_faces(nb, y, n).contains(self.expected_face(nb, x, y, z, side)),
        decreases n,
    {
        let e = self.expected_face(nb, x, y, z, side);
        if x == n - 1 {
            self.lemma_row_faces_complete(nb, x, y, z, side, 8);
        } else {
            self.lemma_layer_faces_complete(nb, x, y, z, side, n - 1);
        }
        lemma_concat_contains(self.layer_faces(nb, y, n - 1), self.row_faces(nb, y, n - 1, 8), e);
    }

    proof fn lemma_faces_below_complete(self, nb: Neighbours, x: int, y: int, z: int, side: int, n: int)
        requires
            in_chunk(x, y, z),
            y < n,
            1 <= side <= 6,
            self.species_at(x, y, z, nb) == Species::Air,
            self.expected_face(nb, x, y, z, side).neighbour != Species::Air,
        ensures
            self.faces_below(nb, n).contains(self.expected_face(nb, x, y, z, side)),
        decreases n,
    {
        let e = self.expected_face(nb, x, y, z, side);
        if y == n - 1 {
            self.lemma_layer_faces_complete(nb, x, y, z, side, 8);
        } else {
            self.lemma_faces_below_complete(nb, x, y, z, side, n - 1);
        }
        lemma_concat_contains(self.faces_below(nb, n - 1), self.layer_faces(nb, n - 1, 8), e);
    }

    /// Meshing misses no face: wherever an air cell of the chunk has a solid
    /// block next to it on some side, that face is among the visible faces.
    pub proof fn lemma_visible_faces_complete(self, nb: Neighbours, x: int, y: int, z: int, side: int)
        requires
            in_chunk(x, y, z),
            1 <= side <= 6,
            self.species_at(x, y, z, nb) == Species::Air,
            self.expected_face(nb, x, y, z, side).neighbour != Species::Air,
        ensures
            self.visible_faces(nb).contains(self.expected_face(nb, x, y, z, side)),
    {
        self.lemma_faces_below_complete(nb, x, y, z, side, 256);
    }

    /// Collects every face the chunk shows (see `visible_faces`).
    pub fn collect_faces(&self, nb: &Neighbours) -> (faces: Vec<Face>)
        ensures
            faces@ == self.visible_faces(*nb),
            faces@.len() <= 98304,
    {
        let mut faces: Vec<Face> = Vec::new();
        let mut y: i32 = 0;
        while y < 256
            invariant
                0 <= y <= 256,
                faces@ == self.faces_below(*nb, y as int),
            decreases 256 - y,
        {
            let y_edge = y == 0 || y + 1 == 256;
            let mut x: i32 = 0;
            while x < 8
                invariant
                    0 <= y < 256,
                    0 <= x <= 8,
                    y_edge == (y == 0 || y == 255),
                    faces@ == self.faces_below(*nb, y as int) + self.layer_faces(*nb, y as int, x as int),
                decreases 8 - x,
            {
                let x_edge = x == 0 || x + 1 == 8;
                let mut z: i32 = 0;
                while z < 8
                    invariant
                        0 <= y < 256,
                        0 <= x < 8,
                        0 <= z <= 8,
                        y_edge == (y == 0 || y == 255),
                        x_edge == (x == 0 || x == 7),
                        faces@ == self.faces_below(*nb, y as int) + self.layer_faces(*nb, y as int, x as int)
                            + self.row_faces(*nb, y as int, x as int, z as int),
                    decreases 8 - z,
                {
                    let z_edge = z == 0 || z + 1 == 8;
                    let is_edge = y_edge || x_edge || z_edge;
                    let ghost before = faces@;
                    self.push_cell_faces(x, y, z, nb, is_edge, &mut faces);
                    assert(faces@ =~= self.faces_below(*nb, y as int) + self.layer_faces(*nb, y as int, x as int)
                        + self.row_faces(*nb, y as int, x as int, z + 1));
                    z += 1;
                }
                assert(faces@ =~= self.faces_below(*nb, y as int) + self.layer_faces(*nb, y as int, x + 1));
                x += 1;
            }
            assert(faces@ =~= self.faces_below(*nb, y + 1));
            y += 1;
        }
        proof {
            self.lemma_faces_below_len(*nb, 256);
        }
        faces
    }

    /// Appends the face that cell `(x, y, z)` shows on `side`, if any.
    fn push_side_face(
        &self,
        x: i32,
        y: i32,
        z: i32,
        nb: &Neighbours,
        is_edge: bool,
        side: i32,
        faces: &mut Vec<Face>,
    )
        requires
            in_chunk(x as int, y as int, z as int),
            1 <= side <= 6,
            !is_edge ==> (1 <= x < 7 && 1 <= y < 255 && 1 <= z < 7),
        ensures
            final(faces)@ == old(faces)@ + self.face_toward(*nb, x as int, y as int, z as int, side as int),
    {
        let (dx, dy, dz): (i32, i32, i32) = if side == 1 {
            (1, 0, 0)
        } else if side == 2 {
            (0, 0, 1)
        } else if side == 3 {
            (-1, 0, 0)
        } else if side == 4 {
            (0, 0, -1)
        } else if side == 5 {
            (0, 1, 0)
        } else {
            (0, -1, 0)
        };
        proof {
            reveal(Chunk::face_toward);
        }
        let mut t = Species::Air;
        if self.get_at_decide(x + dx, y + dy, z + dz, nb, is_edge, &mut t) != Species::Air {
            faces.push(Face { x, y, z, side, neighbour: t });
        }
    }

    /// Appends the faces of cell `(x, y, z)`. Where `is_edge` is false the
    /// six cells around it must lie in the chunk.
    fn push_cell_faces(&self, x: i32, y: i32, z: i32, nb: &Neighbours, is_edge: bool, faces: &mut Vec<Face>)
        requires
            in_chunk(x as int, y as int, z as int),
            !is_edge ==> (1 <= x < 7 && 1 <= y < 255 && 1 <= z < 7),
        ensures
            final(faces)@ == old(faces)@ + self.cell_faces(*nb, x as int, y as int, z as int),
    {
        if self.get_at(x, y, z, nb) != Species::Air {
            assert(faces@ =~= old(faces)@ + self.cell_faces(*nb, x as int, y as int, z as int));
            return;
        }
        self.push_side_face(x, y, z, nb, is_edge, 1, faces);
        self.push_side_face(x, y, z, nb, is_edge, 2, faces);
        self.push_side_face(x, y, z, nb, is_edge, 3, faces);
        self.push_side_face(x, y, z, nb, is_edge, 4, faces);
        self.push_side_face(x, y, z, nb, is_edge, 5, faces);
        self.push_side_face(x, y, z, nb, is_edge, 6, faces);
        assert(faces@ =~= old(faces)@ + self.cell_faces(*nb, x as int, y as int, z as int));
    }

    /// Appends the four corners `v` of a quad and its two triangles, numbered
    /// from `*index_count`, which then moves past them.
    fn add_trimesh_attributes(
        v: [Vertex; 4],
        vertices: &mut Vec<Vertex>,
        indices: &mut Vec<[u32; 3]>,
        index_count: &mut u32,
    )
        requires
            *old(index_count) + 4 <= u32::MAX,
        ensures
            final(vertices)@ == old(vertices)@ + v@,
            final(indices)@.len() == old(indices)@.len() + 2,
            forall|j: int| 0 <= j < old(indices)@.len() ==> final(indices)@[j] == old(indices)@[j],
            final(indices)@[old(indices)@.len() as int]@ == quad_triangle(*old(index_count) as int, false),
            final(indices)@[old(indices)@.len() + 1int]@ == quad_triangle(*old(index_count) as int, true),
            *final(index_count) == *old(index_count) + 4,
    {
        vertices.push(v[0]);
        vertices.push(v[1]);
        vertices.push(v[2]);
        vertices.push(v[3]);
        assert(vertices@ =~= old(vertices)@ + v@);
        indices.push([0u32 + *index_count, 1u32 + *index_count, 2u32 + *index_count]);
        indices.push([0u32 + *index_count, 2u32 + *index_count, 3u32 + *index_count]);
        *index_count += 4;
    }

    /// The collider geometry of the chunk: for face `i` of `visible_faces`,
    /// corners `4 * i` to `4 * i + 3` are its quad and triangles `2 * i` and
    /// `2 * i + 1` split it.
    pub fn generate_trimesh_data(&self, neighbours: Neighbours) -> (r: (Vec<Vertex>, Vec<[u32; 3]>))
        ensures
            r.0@.len() == 4 * self.visible_faces(neighbours).len(),
            r.1@.len() == 2 * self.visible_faces(neighbours).len(),
            forall|i: int, k: int|
                0 <= i < self.visible_faces(neighbours).len() && 0 <= k < 4 ==> #[trigger] r.0@[4 * i + k]
                    == face_corner(self.visible_faces(neighbours)[i], k),
            forall|i: int|
                0 <= i < self.visible_faces(neighbours).len() ==> #[trigger] r.1@[2 * i]@ == quad_triangle(
                    4 * i,
                    false,
                ),
            forall|i: int|
                0 <= i < self.visible_faces(neighbours).len() ==> #[trigger] r.1@[2 * i + 1]@ == quad_triangle(
                    4 * i,
                    true,
                ),
            forall|t: int, c: int|
                0 <= t < r.1@.len() && 0 <= c < 3 ==> #[trigger] r.1@[t]@[c] < r.0@.len(),
    {
        let faces = self.collect_faces(&neighbours);
        proof {
            self.lemma_visible_faces_show(neighbours);
        }
        let mut vertices: Vec<Vertex> = Vec::new();
        let mut indices: Vec<[u32; 3]> = Vec::new();
        let mut index_count: u32 = 0;
        let mut i: usize = 0;
        while i < faces.len()
            invariant
                faces@ == self.visible_faces(neighbours),
                faces@.len() <= 98304,
                forall|j: int| 0 <= j < faces@.len() ==> self.face_shows(neighbours, #[trigger] faces@[j]),
                i <= faces@.len(),
                index_count == 4 * i,
                vertices@.len() == 4 * i,
                indices@.len() == 2 * i,
                forall|j: int, k: int|
                    0 <= j < i && 0 <= k < 4 ==> #[trigger] vertices@[4 * j + k] == face_corner(faces@[j], k),
                forall|j: int| 0 <= j < i ==> #[trigger] indices@[2 * j]@ == quad_triangle(4 * j, false),
                forall|j: int| 0 <= j < i ==> #[trigger] indices@[2 * j + 1]@ == quad_triangle(4 * j, true),
            decreases faces@.len() - i,
        {
            let q = face_quad(&faces[i]);
            Chunk::add_trimesh_attributes(q, &mut vertices, &mut indices, &mut index_count);
            assert forall|j: int, k: int| 0 <= j < i + 1 && 0 <= k < 4 implies #[trigger] vertices@[4 * j + k]
                == face_corner(faces@[j], k) by {
                if j == i {
                    assert(vertices@[4 * j + k] == q@[k]);
                }
            }
            i += 1;
        }
        assert forall|t: int, c: int| 0 <= t < indices@.len() && 0 <= c < 3 implies #[trigger] indices@[t]@[c]
            < vertices@.len() by {
            let j = t / 2;
            if t % 2 == 0 {
                assert(indices@[2 * j]@ == quad_triangle(4 * j, false));
            } else {
                assert(indices@[2 * j + 1]@ == quad_triangle(4 * j, true));
            }
        }
        (vertices, indices)
    }

    /// Appends the four corners `v` of a quad, its normal `n` four times,
    /// its six indices numbered from `*index_count` (which then moves past
    /// them), and its texture key.
    fn add_attributes(
        v: [Vertex; 4],
        n: Vertex,
        vertices: &mut Vec<Vertex>,
        normals: &mut Vec<Vertex>,
        indices: &mut Vec<u32>,
        index_count: &mut u32,
        t: Species,
        uv: &mut Vec<UvKey>,
        side: i32,
    )
        requires
            *old(index_count) + 4 <= u32::MAX,
        ensures
            final(vertices)@ == old(vertices)@ + v@,
            final(normals)@ == old(normals)@ + seq![n, n, n, n],
            final(indices)@ == old(indices)@ + quad_indices(*old(index_count) as int),
            final(uv)@ == old(uv)@.push(UvKey { species: t, side }),
            *final(index_count) == *old(index_count) + 4,
    {
        vertices.push(v[0]);
        vertices.push(v[1]);
        vertices.push(v[2]);
        vertices.push(v[3]);
        assert(vertices@ =~= old(vertices)@ + v@);
        normals.push(n);
        normals.push(n);
        normals.push(n);
        normals.push(n);
        assert(normals@ =~= old(normals)@ + seq![n, n, n, n]);
        uv.push(UvKey { species: t, side });
        let offsets: [u32; 6] = [0u32, 1u32, 2u32, 0u32, 2u32, 3u32];
        let mut j: usize = 0;
        while j < 6
            invariant
                j <= 6,
                *index_count + 4 <= u32::MAX,
                *index_count == *old(index_count),
                offsets@ == seq![0u32, 1u32, 2u32, 0u32, 2u32, 3u32],
                indices@ == old(indices)@ + quad_indices(*old(index_count) as int).take(j as int),
            decreases 6 - j,
        {
            indices.push(*index_count + offsets[j]);
            assert(quad_indices(*old(index_count) as int).take(j + 1) =~= quad_indices(
                *old(index_count) as int,
            ).take(j as int).push((*index_count + offsets[j as int]) as u32));
            j += 1;
        }
        assert(quad_indices(*old(index_count) as int).take(6) =~= quad_indices(*old(index_count) as int));
        *index_count += 4;
    }

    /// The render mesh of the chunk: for face `i` of `visible_faces`, corners
    /// and normals `4 * i` to `4 * i + 3` are its quad and the normal of its
    /// side, indices `6 * i` to `6 * i + 5` its two triangles, and texture
    /// key `i` the species it faces and its side.
    pub fn generate_mesh_data(&self, neighbours: Neighbours) -> (m: MeshData)
        ensures
            m.vertices@.len() == 4 * self.visible_faces(neighbours).len(),
            m.normals@.len() == 4 * self.visible_faces(neighbours).len(),
            m.indices@.len() == 6 * self.visible_faces(neighbours).len(),
            m.uv@.len() == self.visible_faces(neighbours).len(),
            forall|i: int, k: int|
                0 <= i < self.visible_faces(neighbours).len() && 0 <= k < 4 ==> {
                    &&& #[trigger] m.vertices@[4 * i + k] == face_corner(self.visible_faces(neighbours)[i], k)
                    &&& m.normals@[4 * i + k] == side_normal(self.visible_faces(neighbours)[i].side as int)
                },
            forall|i: int, k: int|
                0 <= i < self.visible_faces(neighbours).len() && 0 <= k < 6 ==> #[trigger] m.indices@[6 * i + k]
                    == quad_indices(4 * i)[k],
            forall|i: int|
                0 <= i < self.visible_faces(neighbours).len() ==> #[trigger] m.uv@[i] == (UvKey {
                    species: self.visible_faces(neighbours)[i].neighbour,
                    side: self.visible_faces(neighbours)[i].side,
                }),
            forall|t: int| 0 <= t < m.indices@.len() ==> #[trigger] m.indices@[t] < m.vertices@.len(),
    {
        let faces = self.collect_faces(&neighbours);
        proof {
            self.lemma_visible_faces_show(neighbours);
        }
        let mut vertices: Vec<Vertex> = Vec::new();
        let mut normals: Vec<Vertex> = Vec::new();
        let mut indices: Vec<u32> = Vec::new();
        let mut uv: Vec<UvKey> = Vec::new();
        let mut index_count: u32 = 0;
        let mut i: usize = 0;
        while i < faces.len()
            invariant
                faces@ == self.visible_faces(neighbours),
                faces@.len() <= 98304,
                forall|j: int| 0 <= j < faces@.len() ==> self.face_shows(neighbours, #[trigger] faces@[j]),
                i <= faces@.len(),
                index_count == 4 * i,
                vertices@.len() == 4 * i,
                normals@.len() == 4 * i,
                indices@.len() == 6 * i,
                uv@.len() == i,
                forall|j: int, k: int|
                    0 <= j < i && 0 <= k < 4 ==> #[trigger] vertices@[4 * j + k] == face_corner(faces@[j], k),
                forall|j: int, k: int|
                    0 <= j < i && 0 <= k < 4 ==> #[trigger] normals@[4 * j + k] == side_normal(faces@[j].side as int),
                forall|j: int, k: int|
                    0 <= j < i && 0 <= k < 6 ==> #[trigger] indices@[6 * j + k] == quad_indices(4 * j)[k],
                forall|j: int|
                    0 <= j < i ==> #[trigger] uv@[j] == (UvKey { species: faces@[j].neighbour, side: faces@[j].side }),
            decreases faces@.len() - i,
        {
            let f = faces[i];
            let q = face_quad(&f);
            let n: Vertex = if f.side == 1 {
                (-1, 0, 0)
            } else if f.side == 2 {
                (0, 0, 1)
            } else if f.side == 3 {
                (-1, 0, 0)
            } else if f.side == 4 {
                (0, 0, -1)
            } else if f.side == 5 {
                (0, -1, 0)
            } else {
                (0, 1, 0)
            };
            assert(n == side_normal(f.side as int));
            let ghost old_indices = indices@;
            let ghost old_vertices = vertices@;
            let ghost old_normals = normals@;
            Chunk::add_attributes(
                q,
                n,
                &mut vertices,
                &mut normals,
                &mut indices,
                &mut index_count,
                f.neighbour,
                &mut uv,
                f.side,
            );
            assert forall|j: int, k: int| 0 <= j < i + 1 && 0 <= k < 4 implies #[trigger] vertices@[4 * j + k]
                == face_corner(faces@[j], k) by {
                if j < i {
                    assert(vertices@[4 * j + k] == old_vertices[4 * j + k]);
                } else {
                    assert(vertices@[4 * j + k] == q@[k]);
                }
            }
            assert forall|j: int, k: int| 0 <= j < i + 1 && 0 <= k < 4 implies #[trigger] normals@[4 * j + k]
                == side_normal(faces@[j].side as int) by {
                if j < i {
                    assert(normals@[4 * j + k] == old_normals[4 * j + k]);
                } else {
                    assert(normals@[4 * j + k] == seq![n, n, n, n][k]);
                }
            }
            assert forall|j: int, k: int| 0 <= j < i + 1 && 0 <= k < 6 implies #[trigger] indices@[6 * j + k]
                == quad_indices(4 * j)[k] by {
                if j < i {
                    assert(indices@[6 * j + k] == old_indices[6 * j + k]);
                }
            }
            i += 1;
        }
        assert forall|t: int| 0 <= t < indices@.len() implies #[trigger] indices@[t] < vertices@.len() by {
            let j = t / 6;
            let k = t % 6;
            assert(indices@[6 * j + k] == quad_indices(4 * j)[k]);
        }
        MeshData { vertices, normals, indices, uv }
    }
}

} // verus!
