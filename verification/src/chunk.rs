use vstd::prelude::*;
use crate::block::{Block, Species};
use crate::rng::{gen_ratio, thread_rng};

verus! {

/// Number of block layers in a chunk (the `y` axis).
pub const CHUNK_HEIGHT: usize = 256;
/// Width and depth of a chunk (the `x` and `z` axes).
pub const CHUNK_SIZE: usize = 8;

/// The species of every cell of a chunk, indexed `[y][x][z]`.
pub type SpeciesColumn = [[[Species; CHUNK_SIZE]; CHUNK_SIZE]; CHUNK_HEIGHT];

/// The species columns around a chunk, indexed `[x][z]` with 1 as the chunk
/// itself, 0 as the lower and 2 as the higher coordinate.
pub type Neighbours = [[Option<SpeciesColumn>; 3]; 3];

/// A column of blocks, `CHUNK_SIZE` wide and deep and `CHUNK_HEIGHT` high.
pub struct Chunk {
    pub position: (i32, i32),
    /// Indexed `[y][x][z]`.
    pub blocks: [[[Block; CHUNK_SIZE]; CHUNK_SIZE]; CHUNK_HEIGHT],
    pub requires_update: bool,
    pub requires_collider_update: bool,
}

impl Clone for Chunk {
    /// A copy of the chunk, equal to it in every field.
    fn clone(&self) -> (c: Self)
        ensures
            c == *self,
    {
        Chunk {
            position: self.position,
            blocks: self.blocks,
            requires_update: self.requires_update,
            requires_collider_update: self.requires_collider_update,
        }
    }
}

/// Whether a chunk is loaded into the world.
pub enum ChunkState {
    Loaded,
    Unloaded,
}

/// `(x, y, z)` names a cell of a chunk.
pub open spec fn in_chunk(x: int, y: int, z: int) -> bool {
    &&& 0 <= x < CHUNK_SIZE
    &&& 0 <= y < CHUNK_HEIGHT
    &&& 0 <= z < CHUNK_SIZE
}

/// The cell of a neighbouring column that stands for a coordinate outside the
/// chunk: below 0 is the last index, past the end is 0, inside is itself.
pub open spec fn wrap_index(i: int, len: int) -> int {
    if i >= len {
        0
    } else if i < 0 {
        len - 1
    } else {
        i
    }
}

/// Which of the three neighbour slots along an axis a coordinate falls in.
pub open spec fn neighbour_slot(i: int) -> int {
    if i >= CHUNK_SIZE {
        2
    } else if i < 0 {
        0
    } else {
        1
    }
}

/// The species a neighbour column holds at a cell.
pub open spec fn column_species(col: SpeciesColumn, y: int, x: int, z: int) -> Species {
    col@[y]@[x]@[z]
}


/// Number of cells in a chunk.
pub const CELLS: usize = 16384;

/// The position of cell `[y][x][z]` in the order in which chunk generation
/// visits the cells: `y` outermost, then `x`, then `z`.
pub open spec fn cell_index(y: int, x: int, z: int) -> int {
    y * 64 + x * 8 + z
}

/// Cell `[y][x][z]` comes before cell `[y2][x2][z2]` in generation order.
pub open spec fn visited_before(y: int, x: int, z: int, y2: int, x2: int, z2: int) -> bool {
    y < y2 || (y == y2 && (x < x2 || (x == x2 && z < z2)))
}

/// The species generation gives a cell, from the draw made for it: air where
/// the draw says to leave the cell empty, stone otherwise.
pub open spec fn drawn_species(keep_air: Seq<bool>, y: int, x: int, z: int) -> Species {
    if keep_air[cell_index(y, x, z)] {
        Species::Air
    } else {
        Species::Stone
    }
}

/// The horizontal step from a chunk to the neighbour whose column goes into
/// slot `[a][b]` of its neighbour grid; only the four slots that share an
/// edge with the centre are filled.
pub open spec fn slot_offset(a: int, b: int) -> Option<(int, int)> {
    if a == 1 && b == 2 {
        Some((0, 1))
    } else if a == 1 && b == 0 {
        Some((0, -1))
    } else if a == 2 && b == 1 {
        Some((1, 0))
    } else if a == 0 && b == 1 {
        Some((-1, 0))
    } else {
        None
    }
}

/// The last chunk of `loaded` at position `pos`, if there is one.
pub open spec fn last_at(loaded: Seq<Chunk>, pos: (int, int)) -> Option<Chunk>
    decreases loaded.len(),
{
    if loaded.len() == 0 {
        None
    } else if (loaded.last().position.0 as int, loaded.last().position.1 as int) == pos {
        Some(loaded.last())
    } else {
        last_at(loaded.drop_last(), pos)
    }
}

/// `col` holds, cell by cell, the species of chunk `c`.
pub open spec fn column_of(col: SpeciesColumn, c: Chunk) -> bool {
    forall|y: int, x: int, z: int| in_chunk(x, y, z) ==> #[trigger] col@[y]@[x]@[z] == c.block_at(y, x, z).species
}

/// The index of the last chunk of `loaded` at `pos`.
fn find_last(loaded: &Vec<Chunk>, pos: (i32, i32)) -> (r: Option<usize>)
    ensures
        match last_at(loaded@, (pos.0 as int, pos.1 as int)) {
            None => r is None,
            Some(c) => r matches Some(i) && i < loaded@.len() && loaded@[i as int] == c,
        },
{
    let mut i: usize = loaded.len();
    assert(loaded@.take(i as int) =~= loaded@);
    while i > 0
        invariant
            i <= loaded@.len(),
            last_at(loaded@, (pos.0 as int, pos.1 as int)) == last_at(loaded@.take(i as int), (pos.0 as int, pos.1 as int)),
        decreases i,
    {
        assert(loaded@.take(i as int).last() == loaded@[i - 1]);
        if loaded[i - 1].position.0 == pos.0 && loaded[i - 1].position.1 == pos.1 {
            return Some(i - 1);
        }
        assert(loaded@.take(i as int).drop_last() =~= loaded@.take(i - 1));
        i -= 1;
    }
    assert(loaded@.take(0) =~= Seq::<Chunk>::empty());
    None
}

impl Chunk {
    /// The block stored at `[y][x][z]`.
    pub open spec fn block_at(self, y: int, x: int, z: int) -> Block {
        self.blocks@[y]@[x]@[z]
    }

    /// What `get_at` sees at `(x, y, z)`: the chunk's own block inside it;
    /// above or below it, the wrapped cell of the neighbour column in the
    /// slot that `x` and `z` select, or air where that slot is empty; air
    /// beside it.
    pub open spec fn species_at(self, x: int, y: int, z: int, neighbours: Neighbours) -> Species {
        if in_chunk(x, y, z) {
            self.block_at(y, x, z).species
        } else if y >= CHUNK_HEIGHT || y < 0 {
            match neighbours@[neighbour_slot(x)]@[neighbour_slot(z)] {
                None => Species::Air,
                Some(col) => column_species(
                    col,
                    wrap_index(y, CHUNK_HEIGHT as int),
                    wrap_index(x, CHUNK_SIZE as int),
                    wrap_index(z, CHUNK_SIZE as int),
                ),
            }
        } else {
            Species::Air
        }
    }


    /// `after` is `before` with `b` put at `pos` (`(x, y, z)`), its mesh and
    /// collider marked stale, and nothing else changed.
    pub open spec fn replaced(before: Chunk, after: Chunk, b: Block, pos: (i32, i32, i32)) -> bool {
        &&& after.position == before.position
        &&& after.requires_update
        &&& after.requires_collider_update
        &&& after.block_at(pos.1 as int, pos.0 as int, pos.2 as int) == b
        &&& forall|y: int, x: int, z: int|
            in_chunk(x, y, z) && (x, y, z) != (pos.0 as int, pos.1 as int, pos.2 as int)
                ==> #[trigger] after.block_at(y, x, z) == before.block_at(y, x, z)
    }

    /// `after` is `before` with its "mesh is stale" mark cleared, and `stale`
    /// tells whether the mark was set.
    pub open spec fn took_update(before: Chunk, after: Chunk, stale: bool) -> bool {
        &&& stale == before.requires_update
        &&& !after.requires_update
        &&& after.position == before.position
        &&& after.blocks == before.blocks
        &&& after.requires_collider_update == before.requires_collider_update
    }

    /// A new chunk at `pos` whose cells are filled from one draw per cell, in
    /// generation order: a cell stays air where its draw is `true` and
    /// becomes stone where it is `false`. Mesh and collider are marked stale.
    pub fn from_draws(pos: (i32, i32), keep_air: &Vec<bool>) -> (c: Chunk)
        requires
            keep_air.len() == CELLS,
        ensures
            c.position == pos,
            c.requires_update,
            c.requires_collider_update,
            forall|y: int, x: int, z: int|
                in_chunk(x, y, z) ==> #[trigger] c.block_at(y, x, z).species == drawn_species(
                    keep_air@,
                    y,
                    x,
                    z,
                ),
    {
        let mut b = [[[Block::new();CHUNK_SIZE];CHUNK_SIZE];CHUNK_HEIGHT];
        let mut y: usize = 0;
        while y < CHUNK_HEIGHT
            invariant
                y <= CHUNK_HEIGHT,
                keep_air.len() == CELLS,
                forall|yy: int, xx: int, zz: int|
                    in_chunk(xx, yy, zz) ==> #[trigger] b@[yy]@[xx]@[zz].species == (if yy < y {
                        drawn_species(keep_air@, yy, xx, zz)
                    } else {
                        Species::Air
                    }),
            decreases CHUNK_HEIGHT - y,
        {
            let mut x: usize = 0;
            while x < CHUNK_SIZE
                invariant
                    y < CHUNK_HEIGHT,
                    x <= CHUNK_SIZE,
                    keep_air.len() == CELLS,
                    forall|yy: int, xx: int, zz: int|
                        in_chunk(xx, yy, zz) ==> #[trigger] b@[yy]@[xx]@[zz].species == (if visited_before(yy, xx, 0, y as int, x as int, 0) {
                            drawn_species(keep_air@, yy, xx, zz)
                        } else {
                            Species::Air
                        }),
                decreases CHUNK_SIZE - x,
            {
                let mut z: usize = 0;
                while z < CHUNK_SIZE
                    invariant
                        y < CHUNK_HEIGHT,
                        x < CHUNK_SIZE,
                        z <= CHUNK_SIZE,
                        keep_air.len() == CELLS,
                        forall|yy: int, xx: int, zz: int|
                            in_chunk(xx, yy, zz) ==> #[trigger] b@[yy]@[xx]@[zz].species == (if visited_before(yy, xx, zz, y as int, x as int, z as int) {
                                drawn_species(keep_air@, yy, xx, zz)
                            } else {
                                Species::Air
                            }),
                    decreases CHUNK_SIZE - z,
                {
                    if !keep_air[y * 64 + x * 8 + z] {
                        b[y][x][z] = Block { species: Species::Stone };
                    }
                    z += 1;
                }
                x += 1;
            }
            y += 1;
        }
        Chunk { position: pos, blocks: b, requires_update: true, requires_collider_update: true }
    }

    /// `c` is the chunk at `pos` made from one draw per cell, in generation
    /// order: a cell is air exactly where its own draw is `true` and stone
    /// where it is `false`; mesh and collider are marked stale.
    pub open spec fn built_from_draws(c: Chunk, pos: (i32, i32), keep_air: Seq<bool>) -> bool {
        &&& keep_air.len() == CELLS
        &&& c.position == pos
        &&& c.requires_update
        &&& c.requires_collider_update
        &&& forall|y: int, x: int, z: int|
            in_chunk(x, y, z) ==> (#[trigger] c.block_at(y, x, z).species == Species::Stone
                <==> !keep_air[cell_index(y, x, z)])
        &&& forall|y: int, x: int, z: int|
            in_chunk(x, y, z) ==> (#[trigger] c.block_at(y, x, z).species == Species::Air
                <==> keep_air[cell_index(y, x, z)])
    }

    /// A new chunk at `pos` whose cells are drawn one by one, in generation
    /// order, each from its own call of `gen_ratio(numerator, denominator)`:
    /// a cell stays air when its draw is `true` (probability `numerator /
    /// denominator`) and becomes stone otherwise.
    pub fn with_air_ratio(pos: (i32, i32), numerator: u32, denominator: u32) -> (c: Chunk)
        requires
            0 < denominator,
            numerator <= denominator,
        ensures
            exists|keep_air: Seq<bool>| #[trigger] Chunk::built_from_draws(c, pos, keep_air),
            numerator == 0 ==> forall|y: int, x: int, z: int|
                in_chunk(x, y, z) ==> #[trigger] c.block_at(y, x, z).species == Species::Stone,
            numerator == denominator ==> forall|y: int, x: int, z: int|
                in_chunk(x, y, z) ==> #[trigger] c.block_at(y, x, z).species == Species::Air,
    {
        let mut rng = thread_rng();
        let mut keep_air: Vec<bool> = Vec::new();
        let mut i: usize = 0;
        while i < CELLS
            invariant
                i <= CELLS,
                keep_air.len() == i,
                0 < denominator,
                numerator <= denominator,
                numerator == 0 ==> forall|j: int| 0 <= j < i ==> !#[trigger] keep_air@[j],
                numerator == denominator ==> forall|j: int| 0 <= j < i ==> #[trigger] keep_air@[j],
            decreases CELLS - i,
        {
            keep_air.push(gen_ratio(&mut rng, numerator, denominator));
            i += 1;
        }
        let c = Chunk::from_draws(pos, &keep_air);
        proof {
            assert forall|y: int, x: int, z: int| in_chunk(x, y, z) implies 0 <= #[trigger] cell_index(y, x, z) < CELLS by {
            }
            assert(Chunk::built_from_draws(c, pos, keep_air@));
        }
        c
    }

    /// A new chunk at `pos`, each cell drawn at random: air with probability
    /// 19 in 20, stone otherwise (see `with_air_ratio`).
    pub fn new(pos: (i32, i32)) -> (c: Chunk)
        ensures
            exists|keep_air: Seq<bool>| #[trigger] Chunk::built_from_draws(c, pos, keep_air),
            c.position == pos,
            c.requires_update,
            c.requires_collider_update,
            forall|y: int, x: int, z: int|
                in_chunk(x, y, z) ==> (#[trigger] c.block_at(y, x, z).species == Species::Air
                    || c.block_at(y, x, z).species == Species::Stone),
    {
        let c = Chunk::with_air_ratio(pos, 19, 20);
        proof {
            let d = choose|keep_air: Seq<bool>| #[trigger] Chunk::built_from_draws(c, pos, keep_air);
            assert forall|y: int, x: int, z: int| in_chunk(x, y, z) implies (#[trigger] c.block_at(y, x, z).species
                == Species::Air || c.block_at(y, x, z).species == Species::Stone) by {
                if !d[cell_index(y, x, z)] {
                    assert(c.block_at(y, x, z).species == Species::Stone);
                }
            }
        }
        c
    }

    /// The species of every cell, indexed `[y][x][z]` like `blocks`.
    pub fn species_column(&self) -> (col: SpeciesColumn)
        ensures
            column_of(col, *self),
    {
        let mut col: SpeciesColumn = [[[Species::Air;CHUNK_SIZE];CHUNK_SIZE];CHUNK_HEIGHT];
        let mut y: usize = 0;
        while y < CHUNK_HEIGHT
            invariant
                y <= CHUNK_HEIGHT,
                forall|yy: int, xx: int, zz: int|
                    in_chunk(xx, yy, zz) && yy < y ==> #[trigger] col@[yy]@[xx]@[zz] == self.block_at(yy, xx, zz).species,
            decreases CHUNK_HEIGHT - y,
        {
            let mut x: usize = 0;
            while x < CHUNK_SIZE
                invariant
                    y < CHUNK_HEIGHT,
                    x <= CHUNK_SIZE,
                    forall|yy: int, xx: int, zz: int|
                        in_chunk(xx, yy, zz) && visited_before(yy, xx, 0, y as int, x as int, 0)
                            ==> #[trigger] col@[yy]@[xx]@[zz] == self.block_at(yy, xx, zz).species,
                decreases CHUNK_SIZE - x,
            {
                let mut z: usize = 0;
                while z < CHUNK_SIZE
                    invariant
                        y < CHUNK_HEIGHT,
                        x < CHUNK_SIZE,
                        z <= CHUNK_SIZE,
                        forall|yy: int, xx: int, zz: int|
                            in_chunk(xx, yy, zz) && visited_before(yy, xx, zz, y as int, x as int, z as int)
                                ==> #[trigger] col@[yy]@[xx]@[zz] == self.block_at(yy, xx, zz).species,
                    decreases CHUNK_SIZE - z,
                {
                    col[y][x][z] = self.blocks[y][x][z].species;
                    z += 1;
                }
                x += 1;
            }
            y += 1;
        }
        col
    }

    /// The neighbour grid of this chunk: each of the four slots that share
    /// an edge with the centre holds the species of the last chunk of
    /// `loaded` one step away in that direction, or nothing if there is
    /// none; the other slots hold nothing.
    pub fn neighbours_from(&self, loaded: &Vec<Chunk>) -> (grid: Neighbours)
        requires
            i32::MIN < self.position.0 < i32::MAX,
            i32::MIN < self.position.1 < i32::MAX,
        ensures
            forall|a: int, b: int|
                0 <= a < 3 && 0 <= b < 3 ==> match slot_offset(a, b) {
                    None => (#[trigger] grid@[a]@[b]) is None,
                    Some(d) => match last_at(loaded@, (self.position.0 + d.0, self.position.1 + d.1)) {
                        None => grid@[a]@[b] is None,
                        Some(c) => grid@[a]@[b] matches Some(col) && column_of(col, c),
                    },
                },
    {
        let mut grid: Neighbours = [[None;3];3];
        let targets: [((i32, i32), (usize, usize)); 4] = [
            ((0, 1), (1, 2)),
            ((0, -1), (1, 0)),
            ((1, 0), (2, 1)),
            ((-1, 0), (0, 1)),
        ];
        let mut k: usize = 0;
        while k < 4
            invariant
                k <= 4,
                i32::MIN < self.position.0 < i32::MAX,
                i32::MIN < self.position.1 < i32::MAX,
                targets@ == seq![((0i32, 1i32), (1usize, 2usize)), ((0i32, -1i32), (1usize, 0usize)), ((1i32, 0i32), (2usize, 1usize)), ((-1i32, 0i32), (0usize, 1usize))],
                forall|a: int, b: int|
                    0 <= a < 3 && 0 <= b < 3 ==> match slot_offset(a, b) {
                        None => (#[trigger] grid@[a]@[b]) is None,
                        Some(d) => {
                            let j = if d == (0int, 1int) { 0int } else if d == (0int, -1int) { 1int } else if d == (1int, 0int) { 2int } else { 3int };
                            if j < k {
                                match last_at(loaded@, (self.position.0 + d.0, self.position.1 + d.1)) {
                                    None => grid@[a]@[b] is None,
                                    Some(c) => grid@[a]@[b] matches Some(col) && column_of(col, c),
                                }
                            } else {
                                grid@[a]@[b] is None
                            }
                        },
                    },
            decreases 4 - k,
        {
            let (offset, slot) = targets[k];
            let target = (self.position.0 + offset.0, self.position.1 + offset.1);
            match find_last(loaded, target) {
                Some(i) => {
                    grid[slot.0][slot.1] = Some(loaded[i].species_column());
                },
                None => {
                    grid[slot.0][slot.1] = None;
                },
            }
            k += 1;
        }
        grid
    }

    /// Takes the chunk's "mesh is stale" mark: returns whether it was set and
    /// clears it, changing nothing else.
    pub fn begin_update(&mut self) -> (stale: bool)
        ensures
            Chunk::took_update(*old(self), *final(self), stale),
    {
        if !self.requires_update {
            return false;
        }
        self.requires_update = false;
        true
    }

    /// Does nothing: a chunk changes only through `replace_block`.
    pub fn update(&mut self)
        ensures
            *final(self) == *old(self),
    {
    }

    /// Puts `b` at `[pos.1][pos.0][pos.2]` (`pos` is `(x, y, z)`) and marks
    /// the chunk's mesh and collider as stale.
    pub fn replace_block(&mut self, b: Block, pos: (i32, i32, i32))
        requires
            in_chunk(pos.0 as int, pos.1 as int, pos.2 as int),
        ensures
            Chunk::replaced(*old(self), *final(self), b, pos),
    {
        self.blocks[pos.1 as usize][pos.0 as usize][pos.2 as usize] = b;
        self.requires_update = true;
        self.requires_collider_update = true;
    }

    /// The species at `(x, y, z)`, looking into `neighbours` above and below
    /// the chunk (see `species_at`).
    pub fn get_at(&self, x: i32, y: i32, z: i32, neighbours: &Neighbours) -> (s: Species)
        ensures
            s == self.species_at(x as int, y as int, z as int, *neighbours),
    {
        let cs: i32 = 8;
        let ch: i32 = 256;
        let mut ux: usize = 0;
        let mut uy: usize = 0;
        let mut uz: usize = 0;
        let mut nx: usize = 1;
        let mut nz: usize = 1;
        let mut y_neighbour_flag = false;
        let mut oob = false;

        if y >= ch {
            oob = true;
            y_neighbour_flag = true;
            uy = 0;
        } else if y < 0 {
            oob = true;
            y_neighbour_flag = true;
            uy = CHUNK_HEIGHT - 1;
        } else {
            uy = y as usize;
        }

        if x >= cs {
            oob = true;
            nx = 2;
            ux = 0;
        } else if x < 0 {
            oob = true;
            nx = 0;
            ux = CHUNK_SIZE - 1;
        } else {
            ux = x as usize;
        }

        if z >= cs {
            oob = true;
            nz = 2;
            uz = 0;
        } else if z < 0 {
            oob = true;
            nz = 0;
            uz = CHUNK_SIZE - 1;
        } else {
            uz = z as usize;
        }

        if !oob {
            return self.blocks[uy][ux][uz].species;
        }
        if y_neighbour_flag {
            return match &neighbours[nx][nz] {
                None => Species::Air,
                Some(col) => col[uy][ux][uz],
            };
        }
        Species::Air
    }

    /// The species stored at `(x, y, z)`, which must lie in the chunk.
    pub fn get_at_without_check(&self, x: i32, y: i32, z: i32) -> (s: Species)
        requires
            in_chunk(x as int, y as int, z as int),
        ensures
            s == self.block_at(y as int, x as int, z as int).species,
    {
        self.blocks[y as usize][x as usize][z as usize].species
    }

    /// `get_at` where `edge` is set, else `get_at_without_check` (so the cell
    /// must then lie in the chunk); the answer is also written to `t`.
    pub fn get_at_decide(
        &self,
        x: i32,
        y: i32,
        z: i32,
        neighbours: &Neighbours,
        edge: bool,
        t: &mut Species,
    ) -> (s: Species)
        requires
            !edge ==> in_chunk(x as int, y as int, z as int),
        ensures
            s == *final(t),
            s == self.species_at(x as int, y as int, z as int, *neighbours),
    {
        if edge {
            *t = self.get_at(x, y, z, neighbours);
            return *t;
        }
        *t = self.get_at_without_check(x, y, z);
        *t
    }
}

/// What `replace_block` puts is what `get_at` then reads there, whatever
/// the neighbours; every other position reads as before.
pub proof fn lemma_replace_then_read(before: Chunk, after: Chunk, b: Block, pos: (i32, i32, i32), nb: Neighbours)
    requires
        in_chunk(pos.0 as int, pos.1 as int, pos.2 as int),
        Chunk::replaced(before, after, b, pos),
    ensures
        after.species_at(pos.0 as int, pos.1 as int, pos.2 as int, nb) == b.species,
        forall|x: int, y: int, z: int|
            (x, y, z) != (pos.0 as int, pos.1 as int, pos.2 as int) ==> #[trigger] after.species_at(x, y, z, nb)
                == before.species_at(x, y, z, nb),
{
    assert forall|x: int, y: int, z: int| (x, y, z) != (pos.0 as int, pos.1 as int, pos.2 as int) implies #[trigger] after.species_at(
        x,
        y,
        z,
        nb,
    ) == before.species_at(x, y, z, nb) by {
        if in_chunk(x, y, z) {
            assert(after.block_at(y, x, z) == before.block_at(y, x, z));
        }
    }
}

/// A changed block gets the chunk rebuilt exactly once: right after
/// `replace_block`, `begin_update` reports the mesh stale, and a second
/// `begin_update` reports it fresh.
pub proof fn lemma_replace_updates_once(
    before: Chunk,
    replaced: Chunk,
    taken: Chunk,
    again: Chunk,
    b: Block,
    pos: (i32, i32, i32),
    first: bool,
    second: bool,
)
    requires
        Chunk::replaced(before, replaced, b, pos),
        Chunk::took_update(replaced, taken, first),
        Chunk::took_update(taken, again, second),
    ensures
        first,
        !second,
        again.blocks == replaced.blocks,
{
}

/// Drawing is by cell and deterministic in the draws: two chunks built from
/// the same draws have the same blocks, and changing only the draw of one
/// cell changes only that cell, which is stone exactly when its draw is
/// `false`.
pub proof fn lemma_draws_decide_cells(
    c1: Chunk,
    c2: Chunk,
    pos: (i32, i32),
    d1: Seq<bool>,
    d2: Seq<bool>,
    y: int,
    x: int,
    z: int,
)
    requires
        Chunk::built_from_draws(c1, pos, d1),
        Chunk::built_from_draws(c2, pos, d2),
        in_chunk(x, y, z),
    ensures
        d1[cell_index(y, x, z)] == d2[cell_index(y, x, z)] ==> c1.block_at(y, x, z) == c2.block_at(y, x, z),
        c1.block_at(y, x, z).species == Species::Stone <==> !d1[cell_index(y, x, z)],
        d1 == d2 ==> c1.position == c2.position,
{
    assert(c1.block_at(y, x, z).species == Species::Stone <==> !d1[cell_index(y, x, z)]);
    assert(c1.block_at(y, x, z).species == Species::Air <==> d1[cell_index(y, x, z)]);
    assert(c2.block_at(y, x, z).species == Species::Air <==> d2[cell_index(y, x, z)]);
    assert(c2.block_at(y, x, z).species == Species::Stone <==> !d2[cell_index(y, x, z)]);
}

} // verus!
