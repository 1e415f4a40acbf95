use voxel_flyer::block_set::BlockSet;
use voxel_flyer::mesh::MeshInfo;
use voxel_flyer::point::Point3;
use voxel_flyer::spawner::CubeSpawner;

fn p(x: i32, y: i32, z: i32) -> Point3 {
    Point3::new(x, y, z)
}

#[test]
fn block_set_insert_and_contains() {
    let mut s = BlockSet::new();
    assert!(!s.contains(p(1, 2, 3)));
    assert!(s.insert(p(1, 2, 3)));
    assert!(!s.insert(p(1, 2, 3)));
    assert!(s.contains(p(1, 2, 3)));
    assert!(!s.contains(p(3, 2, 1)));
    assert!(s.insert(p(i32::MIN, i32::MAX, -1)));
    assert!(s.contains(p(i32::MIN, i32::MAX, -1)));
    assert!(!s.contains(p(i32::MAX, i32::MIN, -1)));
}

#[test]
fn block_set_from_points() {
    let s = BlockSet::from_points(&vec![p(0, 0, 0), p(0, 1, 0), p(0, 0, 0)]);
    assert!(s.contains(p(0, 0, 0)));
    assert!(s.contains(p(0, 1, 0)));
    assert!(!s.contains(p(1, 0, 0)));
}

#[test]
fn make_quad_appends_two_triangles() {
    let mut m = MeshInfo::new();
    m.vertices.push(p(9, 9, 9));
    m.normals.push(p(0, 1, 0));
    CubeSpawner::<u8>::make_quad(&p(0, 0, 0), &p(1, 0, 0), &p(1, 1, 0), &p(0, 1, 0), &p(0, 0, 1), &mut m);
    assert_eq!(m.vertices, vec![p(9, 9, 9), p(0, 0, 0), p(1, 0, 0), p(1, 1, 0), p(0, 1, 0)]);
    assert_eq!(m.normals, vec![p(0, 1, 0), p(0, 0, 1), p(0, 0, 1), p(0, 0, 1), p(0, 0, 1)]);
    assert_eq!(m.indices, vec![1, 2, 3, 1, 3, 4]);
}

#[test]
fn lone_cube_has_six_faces() {
    let set = BlockSet::from_points(&vec![p(0, 0, 0)]);
    let mut m = MeshInfo::new();
    CubeSpawner::<u8>::construct_cube(p(0, 0, 0), &mut m, &set, 1);
    assert_eq!(m.vertices.len(), 24);
    assert_eq!(m.normals.len(), 24);
    assert_eq!(m.indices.len(), 36);
    // top face first: up, up+forward, up+forward+right, up+right
    assert_eq!(&m.vertices[0..4], &[p(0, 1, 0), p(0, 1, -1), p(1, 1, -1), p(1, 1, 0)]);
    // bottom face, reversed winding
    assert_eq!(&m.vertices[4..8], &[p(1, 0, 0), p(1, 0, -1), p(0, 0, -1), p(0, 0, 0)]);
    // +x face
    assert_eq!(&m.vertices[8..12], &[p(1, 0, 0), p(1, 1, 0), p(1, 1, -1), p(1, 0, -1)]);
    // -x face
    assert_eq!(&m.vertices[12..16], &[p(0, 0, -1), p(0, 1, -1), p(0, 1, 0), p(0, 0, 0)]);
    // -z (forward) face
    assert_eq!(&m.vertices[16..20], &[p(0, 0, -1), p(1, 0, -1), p(1, 1, -1), p(0, 1, -1)]);
    // +z (back) face
    assert_eq!(&m.vertices[20..24], &[p(0, 1, 0), p(1, 1, 0), p(1, 0, 0), p(0, 0, 0)]);
    let normals: Vec<Point3> = m.normals.iter().step_by(4).cloned().collect();
    assert_eq!(normals, vec![p(0, 1, 0), p(0, -1, 0), p(1, 0, 0), p(-1, 0, 0), p(0, 0, -1), p(0, 0, 1)]);
    assert_eq!(&m.indices[30..36], &[20, 21, 22, 20, 22, 23]);
}

#[test]
fn cube_size_scales_corners() {
    let set = BlockSet::new();
    let mut m = MeshInfo::new();
    CubeSpawner::<u8>::construct_cube(p(10, 20, 30), &mut m, &set, 3);
    assert_eq!(&m.vertices[0..4], &[p(10, 23, 30), p(10, 23, 27), p(13, 23, 27), p(13, 23, 30)]);
}

#[test]
fn adjacent_cubes_hide_shared_faces() {
    let blocks = vec![p(0, 0, 0), p(0, 1, 0)];
    let set = BlockSet::from_points(&blocks);
    let mut m = MeshInfo::new();
    CubeSpawner::<u8>::construct_cube(p(0, 0, 0), &mut m, &set, 1);
    assert_eq!(m.vertices.len(), 20);
    // the lower cube draws no top face
    assert!(m.normals.iter().all(|n| *n != p(0, 1, 0)));
    let mut m2 = MeshInfo::new();
    CubeSpawner::<u8>::construct_cube(p(0, 1, 0), &mut m2, &set, 1);
    assert!(m2.normals.iter().all(|n| *n != p(0, -1, 0)));
}

#[test]
fn neighbours_are_looked_up_one_block_size_away() {
    // with blocks of size 2, a block 1 away is not a neighbour
    let set = BlockSet::from_points(&vec![p(0, 0, 0), p(0, 1, 0), p(0, 0, -2)]);
    let mut m = MeshInfo::new();
    CubeSpawner::<u8>::construct_cube(p(0, 0, 0), &mut m, &set, 2);
    assert_eq!(m.vertices.len(), 20);
    assert!(m.normals.iter().all(|n| *n != p(0, 0, -1)));
    assert!(m.normals.iter().any(|n| *n == p(0, 1, 0)));
}

#[test]
fn mesh_of_a_row_of_blocks() {
    let blocks = vec![p(0, 0, 0), p(1, 0, 0), p(2, 0, 0)];
    let m = CubeSpawner::<u8>::mesh_blocks(&blocks, 1);
    // 3 cubes, 2 shared interfaces hide 4 faces: 18 - 4 = 14 faces
    assert_eq!(m.vertices.len(), 14 * 4);
    assert_eq!(m.indices.len(), 14 * 6);
    assert!(m.indices.iter().all(|i| *i >= 0 && (*i as usize) < m.vertices.len()));
}

#[test]
fn mesh_of_nothing_is_empty() {
    let m = CubeSpawner::<u8>::mesh_blocks(&vec![], 1);
    assert!(m.vertices.is_empty() && m.normals.is_empty() && m.indices.is_empty());
}

#[test]
fn more_neighbours_only_hide_faces() {
    let few = BlockSet::from_points(&vec![p(0, 0, 0), p(1, 0, 0)]);
    let many = BlockSet::from_points(&vec![p(0, 0, 0), p(1, 0, 0), p(0, 0, -1), p(0, 5, 0)]);
    let mut m1 = MeshInfo::new();
    let mut m2 = MeshInfo::new();
    CubeSpawner::<u8>::construct_cube(p(0, 0, 0), &mut m1, &few, 1);
    CubeSpawner::<u8>::construct_cube(p(0, 0, 0), &mut m2, &many, 1);
    assert_eq!(m1.vertices.len(), 20);
    assert_eq!(m2.vertices.len(), 16);
    let n1: Vec<Point3> = m1.normals.iter().step_by(4).cloned().collect();
    let n2: Vec<Point3> = m2.normals.iter().step_by(4).cloned().collect();
    assert!(n2.iter().all(|n| n1.contains(n)));
}

#[test]
fn appending_keeps_earlier_buffers() {
    let set = BlockSet::new();
    let mut m = MeshInfo::new();
    CubeSpawner::<u8>::construct_cube(p(0, 0, 0), &mut m, &set, 1);
    let before = (m.vertices.clone(), m.normals.clone(), m.indices.clone());
    CubeSpawner::<u8>::construct_cube(p(5, 5, 5), &mut m, &set, 1);
    assert_eq!(&m.vertices[..24], &before.0[..]);
    assert_eq!(&m.normals[..24], &before.1[..]);
    assert_eq!(&m.indices[..36], &before.2[..]);
    assert!(m.indices[36..].iter().all(|i| *i >= 24 && *i < 48));
}
