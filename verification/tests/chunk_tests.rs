use voxel_world::block::{Block, Species, TOTAL_SPECIES};
use voxel_world::chunk::{Chunk, ChunkState, Neighbours, SpeciesColumn, CELLS, CHUNK_HEIGHT, CHUNK_SIZE};

fn empty_chunk(pos: (i32, i32)) -> Chunk {
    Chunk::from_draws(pos, &vec![true; CELLS])
}

fn no_neighbours() -> Neighbours {
    [[None; 3]; 3]
}

fn count_species(c: &Chunk, s: Species) -> usize {
    c.blocks
        .iter()
        .map(|layer| layer.iter().map(|row| row.iter().filter(|b| b.species == s).count()).sum::<usize>())
        .sum()
}

fn stone() -> Block {
    Block { species: Species::Stone }
}

#[test]
fn block_new_is_air() {
    assert_eq!(Block::new().species, Species::Air);
}

#[test]
fn species_ids_follow_the_atlas() {
    assert_eq!(Species::Air.id(), 0);
    assert_eq!(Species::Stone.id(), 1);
    assert_eq!(Species::Dirt.id(), 2);
    assert_eq!(TOTAL_SPECIES, 3);
}

#[test]
fn chunk_dimensions() {
    assert_eq!(CHUNK_HEIGHT, 256);
    assert_eq!(CHUNK_SIZE, 8);
    assert_eq!(CELLS, CHUNK_HEIGHT * CHUNK_SIZE * CHUNK_SIZE);
}

#[test]
fn replace_block_then_read_back() {
    let mut c = empty_chunk((0, 0));
    c.requires_update = false;
    c.requires_collider_update = false;
    c.replace_block(stone(), (1, 200, 6));
    assert_eq!(c.blocks[200][1][6].species, Species::Stone);
    assert!(c.requires_update);
    assert!(c.requires_collider_update);
    let nb = no_neighbours();
    assert_eq!(c.get_at(1, 200, 6, &nb), Species::Stone);
    assert_eq!(c.get_at(6, 200, 1, &nb), Species::Air);
    assert_eq!(c.get_at_without_check(1, 200, 6), Species::Stone);
    c.replace_block(Block { species: Species::Dirt }, (1, 200, 6));
    assert_eq!(c.get_at(1, 200, 6, &nb), Species::Dirt);
}

#[test]
fn get_at_beside_the_chunk_is_air() {
    let mut c = empty_chunk((0, 0));
    c.replace_block(stone(), (7, 10, 0));
    let mut col: SpeciesColumn = [[[Species::Stone; CHUNK_SIZE]; CHUNK_SIZE]; CHUNK_HEIGHT];
    col[10][0][0] = Species::Dirt;
    let nb: Neighbours = [[Some(col); 3]; 3];
    // neighbours are only looked into above and below the chunk
    assert_eq!(c.get_at(8, 10, 0, &nb), Species::Air);
    assert_eq!(c.get_at(-1, 10, 0, &nb), Species::Air);
    assert_eq!(c.get_at(3, 10, 8, &nb), Species::Air);
    assert_eq!(c.get_at(3, 10, -1, &nb), Species::Air);
    assert_eq!(c.get_at(7, 10, 0, &nb), Species::Stone);
}

#[test]
fn get_at_above_and_below_reads_neighbour_columns() {
    let c = empty_chunk((0, 0));
    let mut centre: SpeciesColumn = [[[Species::Air; CHUNK_SIZE]; CHUNK_SIZE]; CHUNK_HEIGHT];
    centre[0][2][3] = Species::Stone;
    centre[255][4][5] = Species::Dirt;
    let mut corner: SpeciesColumn = [[[Species::Air; CHUNK_SIZE]; CHUNK_SIZE]; CHUNK_HEIGHT];
    corner[0][0][7] = Species::Dirt;
    let mut nb = no_neighbours();
    // above the chunk: no column, so air
    assert_eq!(c.get_at(2, 256, 3, &nb), Species::Air);
    nb[1][1] = Some(centre);
    nb[2][0] = Some(corner);
    // above: the bottom layer of the centre column
    assert_eq!(c.get_at(2, 256, 3, &nb), Species::Stone);
    assert_eq!(c.get_at(2, 1000, 3, &nb), Species::Stone);
    // below: the top layer
    assert_eq!(c.get_at(4, -1, 5, &nb), Species::Dirt);
    assert_eq!(c.get_at(4, -50, 5, &nb), Species::Dirt);
    // above and past x, before z: slot [2][0], cell [0][0][7]
    assert_eq!(c.get_at(8, 300, -1, &nb), Species::Dirt);
    assert_eq!(c.get_at(8, 300, 0, &nb), Species::Air);
}

#[test]
fn get_at_decide_agrees_with_get_at() {
    let mut c = empty_chunk((0, 0));
    c.replace_block(stone(), (3, 3, 3));
    let nb = no_neighbours();
    let mut t = Species::Dirt;
    assert_eq!(c.get_at_decide(3, 3, 3, &nb, false, &mut t), Species::Stone);
    assert_eq!(t, Species::Stone);
    assert_eq!(c.get_at_decide(3, 3, 3, &nb, true, &mut t), Species::Stone);
    assert_eq!(c.get_at_decide(-1, 3, 3, &nb, true, &mut t), Species::Air);
    assert_eq!(t, Species::Air);
}

#[test]
fn update_changes_nothing() {
    let mut c = empty_chunk((1, 2));
    c.replace_block(stone(), (0, 0, 0));
    c.requires_update = false;
    c.update();
    assert_eq!(c.position, (1, 2));
    assert!(!c.requires_update);
    assert_eq!(c.blocks[0][0][0].species, Species::Stone);
}

#[test]
fn begin_update_takes_the_mark() {
    let mut c = empty_chunk((0, 0));
    assert!(c.begin_update());
    assert!(!c.requires_update);
    assert!(c.requires_collider_update);
    assert!(!c.begin_update());
}

#[test]
fn species_column_copies_blocks() {
    let mut c = empty_chunk((0, 0));
    c.replace_block(stone(), (5, 77, 2));
    let col = c.species_column();
    assert_eq!(col[77][5][2], Species::Stone);
    assert_eq!(col[77][2][5], Species::Air);
}

#[test]
fn neighbours_from_fills_the_four_sides() {
    let mut north = empty_chunk((10, 21));
    north.replace_block(stone(), (0, 0, 0));
    let mut south = empty_chunk((10, 19));
    south.replace_block(stone(), (1, 0, 0));
    let mut east = empty_chunk((11, 20));
    east.replace_block(stone(), (2, 0, 0));
    let far = empty_chunk((12, 20));
    let me = empty_chunk((10, 20));
    let loaded = vec![north.clone(), south.clone(), east.clone(), far, me.clone()];
    let grid = me.neighbours_from(&loaded);
    assert_eq!(grid[1][2].unwrap()[0][0][0], Species::Stone);
    assert_eq!(grid[1][0].unwrap()[0][1][0], Species::Stone);
    assert_eq!(grid[2][1].unwrap()[0][2][0], Species::Stone);
    assert!(grid[0][1].is_none());
    assert!(grid[1][1].is_none());
    assert!(grid[0][0].is_none());
    assert!(grid[2][2].is_none());
}

#[test]
fn neighbours_from_takes_the_last_duplicate() {
    let first = empty_chunk((0, 1));
    let mut second = empty_chunk((0, 1));
    second.replace_block(stone(), (4, 4, 4));
    let me = empty_chunk((0, 0));
    let grid = me.neighbours_from(&vec![first, second]);
    assert_eq!(grid[1][2].unwrap()[4][4][4], Species::Stone);
}

#[test]
fn chunk_clone_is_equal() {
    let mut c = empty_chunk((5, 6));
    c.replace_block(stone(), (2, 3, 4));
    let d = c.clone();
    assert_eq!(d.position, (5, 6));
    assert_eq!(d.blocks[3][2][4].species, Species::Stone);
    assert_eq!(d.requires_update, c.requires_update);
}

#[test]
fn chunk_states_exist() {
    let states = [ChunkState::Loaded, ChunkState::Unloaded];
    assert_eq!(states.len(), 2);
}

#[test]
fn from_draws_all_air() {
    let c = empty_chunk((3, -4));
    assert_eq!(c.position, (3, -4));
    assert!(c.requires_update);
    assert!(c.requires_collider_update);
    assert_eq!(count_species(&c, Species::Air), CELLS);
}

#[test]
fn from_draws_places_stone_in_generation_order() {
    let mut draws = vec![true; CELLS];
    // cell [y=2][x=3][z=5] is number 2*64 + 3*8 + 5
    draws[2 * 64 + 3 * 8 + 5] = false;
    draws[0] = false;
    let c = Chunk::from_draws((0, 0), &draws);
    assert_eq!(c.blocks[2][3][5].species, Species::Stone);
    assert_eq!(c.blocks[0][0][0].species, Species::Stone);
    assert_eq!(c.blocks[2][3][4].species, Species::Air);
    assert_eq!(c.blocks[3][2][5].species, Species::Air);
    assert_eq!(count_species(&c, Species::Stone), 2);
}

#[test]
fn new_chunk_is_air_and_some_stone() {
    let c = Chunk::new((7, 9));
    assert_eq!(c.position, (7, 9));
    assert!(c.requires_update);
    assert!(c.requires_collider_update);
    let stones = count_species(&c, Species::Stone);
    assert_eq!(count_species(&c, Species::Air) + stones, CELLS);
    // one cell in twenty is stone on average: 819 of 16384
    assert!(stones > 400 && stones < 1300, "stones: {}", stones);
}

#[test]
fn replaced_block_is_rebuilt_once() {
    let mut c = empty_chunk((0, 0));
    assert!(c.begin_update());
    c.replace_block(stone(), (0, 0, 0));
    assert!(c.begin_update());
    assert!(!c.begin_update());
    assert_eq!(c.blocks[0][0][0].species, Species::Stone);
}
