use voxel_world::block::{Block, Species};
use voxel_world::chunk::{Chunk, Neighbours, SpeciesColumn, CELLS, CHUNK_HEIGHT, CHUNK_SIZE};
use voxel_world::mesh::{face_quad, Face, UvKey};

fn empty_chunk() -> Chunk {
    Chunk::from_draws((0, 0), &vec![true; CELLS])
}

fn no_neighbours() -> Neighbours {
    [[None; 3]; 3]
}

fn face(x: i32, y: i32, z: i32, side: i32) -> Face {
    Face { x, y, z, side, neighbour: Species::Stone }
}

#[test]
fn empty_chunk_has_no_faces() {
    let c = empty_chunk();
    let nb = no_neighbours();
    assert!(c.collect_faces(&nb).is_empty());
    let (v, i) = c.generate_trimesh_data(nb);
    assert!(v.is_empty() && i.is_empty());
    let m = c.generate_mesh_data(nb);
    assert!(m.vertices.is_empty() && m.normals.is_empty() && m.indices.is_empty() && m.uv.is_empty());
}

#[test]
fn lone_stone_shows_six_faces_in_order() {
    let mut c = empty_chunk();
    c.replace_block(Block { species: Species::Stone }, (4, 100, 4));
    let faces = c.collect_faces(&no_neighbours());
    assert_eq!(
        faces,
        vec![
            face(4, 99, 4, 5),
            face(3, 100, 4, 1),
            face(4, 100, 3, 2),
            face(4, 100, 5, 4),
            face(5, 100, 4, 3),
            face(4, 101, 4, 6),
        ]
    );
}

#[test]
fn full_chunk_shows_nothing_inside() {
    let c = Chunk::from_draws((0, 0), &vec![false; CELLS]);
    assert!(c.collect_faces(&no_neighbours()).is_empty());
}

#[test]
fn neighbour_column_above_shows_top_faces() {
    let c = empty_chunk();
    let mut above: SpeciesColumn = [[[Species::Air; CHUNK_SIZE]; CHUNK_SIZE]; CHUNK_HEIGHT];
    above[0][6][1] = Species::Dirt;
    let mut nb = no_neighbours();
    nb[1][1] = Some(above);
    let faces = c.collect_faces(&nb);
    assert_eq!(faces, vec![Face { x: 6, y: 255, z: 1, side: 5, neighbour: Species::Dirt }]);
}

#[test]
fn face_quad_corners() {
    assert_eq!(face_quad(&face(4, 99, 4, 5)), [(5, 100, 5), (4, 100, 5), (4, 100, 4), (5, 100, 4)]);
    assert_eq!(face_quad(&face(0, 0, 0, 1)), [(1, 0, 1), (1, 1, 1), (1, 1, 0), (1, 0, 0)]);
    assert_eq!(face_quad(&face(0, 0, 0, 2)), [(0, 0, 1), (0, 1, 1), (1, 1, 1), (1, 0, 1)]);
    assert_eq!(face_quad(&face(0, 0, 0, 3)), [(0, 0, 0), (0, 1, 0), (0, 1, 1), (0, 0, 1)]);
    assert_eq!(face_quad(&face(0, 0, 0, 4)), [(1, 0, 0), (1, 1, 0), (0, 1, 0), (0, 0, 0)]);
    assert_eq!(face_quad(&face(0, 0, 0, 6)), [(1, 0, 0), (0, 0, 0), (0, 0, 1), (1, 0, 1)]);
}

#[test]
fn trimesh_of_lone_stone() {
    let mut c = empty_chunk();
    c.replace_block(Block { species: Species::Stone }, (4, 100, 4));
    let (v, i) = c.generate_trimesh_data(no_neighbours());
    assert_eq!(v.len(), 24);
    assert_eq!(i.len(), 12);
    assert_eq!(&v[0..4], &[(5, 100, 5), (4, 100, 5), (4, 100, 4), (5, 100, 4)]);
    assert_eq!(i[0], [0, 1, 2]);
    assert_eq!(i[1], [0, 2, 3]);
    assert_eq!(i[10], [20, 21, 22]);
    assert_eq!(i[11], [20, 22, 23]);
    for t in &i {
        for k in t {
            assert!((*k as usize) < v.len());
        }
    }
}

#[test]
fn mesh_of_lone_stone() {
    let mut c = empty_chunk();
    c.replace_block(Block { species: Species::Stone }, (4, 100, 4));
    let m = c.generate_mesh_data(no_neighbours());
    assert_eq!(m.vertices.len(), 24);
    assert_eq!(m.normals.len(), 24);
    assert_eq!(m.indices.len(), 36);
    assert_eq!(m.uv.len(), 6);
    assert_eq!(&m.indices[0..12], &[0, 1, 2, 0, 2, 3, 4, 5, 6, 4, 6, 7]);
    // side 5 first (the cell below), then 1, 2, 4, 3, 6
    assert_eq!(&m.normals[0..4], &[(0, -1, 0); 4]);
    assert_eq!(m.normals[4], (-1, 0, 0));
    assert_eq!(m.normals[8], (0, 0, 1));
    assert_eq!(m.normals[12], (0, 0, -1));
    assert_eq!(m.normals[16], (-1, 0, 0));
    assert_eq!(m.normals[20], (0, 1, 0));
    assert_eq!(m.uv[0], UvKey { species: Species::Stone, side: 5 });
    assert_eq!(m.uv[5], UvKey { species: Species::Stone, side: 6 });
    assert_eq!(&m.vertices[20..24], &[(5, 101, 4), (4, 101, 4), (4, 101, 5), (5, 101, 5)]);
}
