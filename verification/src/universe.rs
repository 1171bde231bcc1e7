use vstd::prelude::*;

verus! {

/// A chunk position `(x, y, z)` in chunk units.
pub type ChunkPos = (i32, i32, i32);

/// `p` lies in the cube of chunks that `center` loads: each coordinate from
/// `center - distance` up to, not including, `center + distance`.
pub open spec fn in_cube(center: ChunkPos, distance: int, p: ChunkPos) -> bool {
    &&& center.0 - distance <= p.0 < center.0 + distance
    &&& center.1 - distance <= p.1 < center.1 + distance
    &&& center.2 - distance <= p.2 < center.2 + distance
}

/// `p` comes before `q` in the order in which generation visits positions:
/// by `x`, then `y`, then `z`.
pub open spec fn pos_before(p: ChunkPos, q: ChunkPos) -> bool {
    pos_precedes(p, q.0 as int, q.1 as int, q.2 as int)
}

/// `p` comes before the point `(x, y, z)` in generation order.
pub open spec fn pos_precedes(p: ChunkPos, x: int, y: int, z: int) -> bool {
    p.0 < x || (p.0 == x && (p.1 < y || (p.1 == y && p.2 < z)))
}

/// The coordinates of the cube around `center` can be computed in `i32`.
pub open spec fn cube_fits(center: ChunkPos, distance: int) -> bool {
    distance > 0 ==> {
        &&& i32::MIN <= center.0 - distance && center.0 + distance <= i32::MAX + 1
        &&& i32::MIN <= center.1 - distance && center.1 + distance <= i32::MAX + 1
        &&& i32::MIN <= center.2 - distance && center.2 + distance <= i32::MAX + 1
    }
}

/// The set of chunk positions that have been generated, and how far around
/// the player chunks are generated.
pub struct Universe {
    /// Generated positions, each once, in the order they were generated.
    pub chunks: Vec<ChunkPos>,
    pub load_distance: i32,
}

impl Universe {
    /// No position is recorded twice.
    pub open spec fn wf(self) -> bool {
        self.chunks@.no_duplicates()
    }

    /// `after` and `fresh` are what generating around `center` makes of
    /// `before`: `fresh` lists, in generation order and each once, the
    /// positions of the cube that `before` had not generated; `after` has
    /// them appended and the same load distance.
    pub open spec fn generated(before: Universe, after: Universe, center: ChunkPos, fresh: Seq<ChunkPos>) -> bool {
        &&& after.chunks@ == before.chunks@ + fresh
        &&& after.load_distance == before.load_distance
        &&& forall|p: ChunkPos|
            #[trigger] fresh.contains(p) <==> (in_cube(center, before.load_distance as int, p)
                && !before.chunks@.contains(p))
        &&& forall|i: int, j: int| 0 <= i < j < fresh.len() ==> pos_before(#[trigger] fresh[i], #[trigger] fresh[j])
    }

    /// An empty universe that loads chunks up to 10 away.
    pub fn new() -> (u: Universe)
        ensures
            u.chunks@ == Seq::<ChunkPos>::empty(),
            u.load_distance == 10,
            u.wf(),
    {
        Universe { chunks: Vec::new(), load_distance: 10 }
    }

    /// Records every position of the cube around `center` that has not been
    /// generated yet and returns them, in generation order (by `x`, then `y`,
    /// then `z`); see `generated`.
    pub fn generate(&mut self, center: ChunkPos) -> (fresh: Vec<ChunkPos>)
        requires
            old(self).wf(),
            old(self).load_distance > i32::MIN,
            cube_fits(center, old(self).load_distance as int),
        ensures
            final(self).wf(),
            Universe::generated(*old(self), *final(self), center, fresh@),
    {
        let d = self.load_distance;
        let ghost before = self.chunks@;
        let ghost dist = d as int;
        let mut fresh: Vec<ChunkPos> = Vec::new();
        let mut rx: i32 = -d;
        while rx < d
            invariant
                d == self.load_distance,
                dist == d,
                d > i32::MIN,
                cube_fits(center, dist),
                -dist <= rx,
                dist > 0 ==> rx <= dist,
                self.chunks@ == before + fresh@,
                self.chunks@.no_duplicates(),
                forall|p: ChunkPos|
                    #[trigger] fresh@.contains(p) <==> (in_cube(center, dist, p) && !before.contains(p)
                        && p.0 < center.0 + rx),
                forall|i: int| 0 <= i < fresh@.len() ==> (#[trigger] fresh@[i]).0 < center.0 + rx,
                forall|i: int, j: int| 0 <= i < j < fresh@.len() ==> pos_before(#[trigger] fresh@[i], #[trigger] fresh@[j]),
            decreases d - rx,
        {
            let mut ry: i32 = -d;
            while ry < d
                invariant
                    d == self.load_distance,
                    dist == d,
                    d > 0,
                    cube_fits(center, dist),
                    -dist <= rx < dist,
                    -dist <= ry <= dist,
                    self.chunks@ == before + fresh@,
                    self.chunks@.no_duplicates(),
                    forall|p: ChunkPos|
                        #[trigger] fresh@.contains(p) <==> (in_cube(center, dist, p) && !before.contains(p)
                            && (p.0 < center.0 + rx || (p.0 == center.0 + rx && p.1 < center.1 + ry))),
                    forall|i: int|
                        0 <= i < fresh@.len() ==> ((#[trigger] fresh@[i]).0 < center.0 + rx || (fresh@[i].0
                            == center.0 + rx && fresh@[i].1 < center.1 + ry)),
                    forall|i: int, j: int| 0 <= i < j < fresh@.len() ==> pos_before(#[trigger] fresh@[i], #[trigger] fresh@[j]),
                decreases d - ry,
            {
                let mut rz: i32 = -d;
                while rz < d
                    invariant
                        d == self.load_distance,
                        dist == d,
                        d > 0,
                        cube_fits(center, dist),
                        -dist <= rx < dist,
                        -dist <= ry < dist,
                        -dist <= rz <= dist,
                        self.chunks@ == before + fresh@,
                        self.chunks@.no_duplicates(),
                        forall|p: ChunkPos|
                            #[trigger] fresh@.contains(p) <==> (in_cube(center, dist, p) && !before.contains(p)
                                && pos_precedes(p, center.0 + rx, center.1 + ry, center.2 + rz)),
                        forall|i: int|
                            0 <= i < fresh@.len() ==> pos_precedes(
                                #[trigger] fresh@[i],
                                center.0 + rx,
                                center.1 + ry,
                                center.2 + rz,
                            ),
                        forall|i: int, j: int| 0 <= i < j < fresh@.len() ==> pos_before(#[trigger] fresh@[i], #[trigger] fresh@[j]),
                    decreases d - rz,
                {
                    let p: ChunkPos = (center.0 + rx, center.1 + ry, center.2 + rz);
                    if !self.contains(p) {
                        assert(!before.contains(p)) by {
                            if before.contains(p) {
                                let k = choose|k: int| 0 <= k < before.len() && before[k] == p;
                                assert(self.chunks@[k] == p);
                            }
                        }
                        let ghost old_fresh = fresh@;
                        self.chunks.push(p);
                        fresh.push(p);
                        assert forall|q: ChunkPos| #[trigger] fresh@.contains(q) <==> (in_cube(center, dist, q)
                            && !before.contains(q) && pos_precedes(q, center.0 + rx, center.1 + ry, center.2 + rz + 1)) by {
                            if fresh@.contains(q) && q != p {
                                let k = choose|k: int| 0 <= k < fresh@.len() && fresh@[k] == q;
                                assert(old_fresh[k] == q);
                            }
                            if q == p {
                                assert(fresh@[fresh@.len() - 1] == p);
                            }
                            if old_fresh.contains(q) {
                                let k = choose|k: int| 0 <= k < old_fresh.len() && old_fresh[k] == q;
                                assert(fresh@[k] == q);
                            }
                        }
                        assert(self.chunks@.no_duplicates()) by {
                            assert forall|i: int, j: int| 0 <= i < j < self.chunks@.len() implies self.chunks@[i]
                                != self.chunks@[j] by {
                                if j == self.chunks@.len() - 1 {
                                    assert(self.chunks@[j] == p);
                                    if self.chunks@[i] == p {
                                        assert(old(self).chunks@.len() + old_fresh.len() == self.chunks@.len() - 1);
                                    }
                                }
                            }
                        }
                    } else {
                        proof {
                            if !before.contains(p) {
                                let k = choose|k: int| 0 <= k < self.chunks@.len() && self.chunks@[k] == p;
                                assert(fresh@[k - before.len()] == p);
                            }
                        }
                    }
                    rz += 1;
                }
                ry += 1;
            }
            rx += 1;
        }
        fresh
    }

    /// Whether position `p` has been generated.
    pub fn contains(&self, p: ChunkPos) -> (r: bool)
        ensures
            r == self.chunks@.contains(p),
    {
        let mut i: usize = 0;
        while i < self.chunks.len()
            invariant
                i <= self.chunks@.len(),
                forall|j: int| 0 <= j < i ==> self.chunks@[j] != p,
            decreases self.chunks@.len() - i,
        {
            let q = self.chunks[i];
            if q.0 == p.0 && q.1 == p.1 && q.2 == p.2 {
                return true;
            }
            i += 1;
        }
        false
    }
}

/// After generating around `center`, every position of the cube around it
/// has been generated.
pub proof fn lemma_generate_covers_cube(before: Universe, after: Universe, center: ChunkPos, fresh: Seq<ChunkPos>)
    requires
        Universe::generated(before, after, center, fresh),
    ensures
        forall|p: ChunkPos| in_cube(center, before.load_distance as int, p) ==> #[trigger] after.chunks@.contains(p),
{
    assert forall|p: ChunkPos| in_cube(center, before.load_distance as int, p) implies #[trigger] after.chunks@.contains(p) by {
        if before.chunks@.contains(p) {
            let k = choose|k: int| 0 <= k < before.chunks@.len() && before.chunks@[k] == p;
            assert(after.chunks@[k] == p);
        } else {
            assert(fresh.contains(p));
            let k = choose|k: int| 0 <= k < fresh.len() && fresh[k] == p;
            assert(after.chunks@[before.chunks@.len() + k] == p);
        }
    }
}

/// Generating twice around the same centre: the second time generates
/// nothing and leaves the universe as the first left it.
pub proof fn lemma_generate_idempotent(
    before: Universe,
    mid: Universe,
    after: Universe,
    center: ChunkPos,
    fresh1: Seq<ChunkPos>,
    fresh2: Seq<ChunkPos>,
)
    requires
        Universe::generated(before, mid, center, fresh1),
        Universe::generated(mid, after, center, fresh2),
    ensures
        fresh2.len() == 0,
        after.chunks@ == mid.chunks@,
        after.load_distance == mid.load_distance,
{
    lemma_generate_covers_cube(before, mid, center, fresh1);
    if fresh2.len() > 0 {
        assert(fresh2.contains(fresh2[0]));
    }
    assert(after.chunks@ =~= mid.chunks@);
}

} // verus!
