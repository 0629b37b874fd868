use creature_simulator::instances::{
    add_mesh_raw_instances_to_instance_holders, empty_instance_holders, group_instances_by_mesh,
};
use creature_simulator::mesh::{
    cube_indices, cylinder_indices, sphere_indices, MeshId, ShapeKind, CUBE_VERTEX_COUNT,
    MESH_COUNT,
};

#[test]
fn all_mesh_ids_are_the_drawable_meshes_in_order() {
    let ids = MeshId::all_mesh_ids();
    assert_eq!(ids, vec![MeshId::Cube, MeshId::Sphere, MeshId::Cylinder]);
    assert_eq!(ids.len(), MESH_COUNT);
    for (k, id) in ids.iter().enumerate() {
        assert_eq!(id.index(), k);
    }
    assert_eq!(MeshId::MeshCount.index(), MESH_COUNT);
    assert_eq!(MeshId::NotSupported.index(), 4);
}

#[test]
fn shapes_map_to_their_unit_mesh() {
    assert_eq!(MeshId::try_from_shape(ShapeKind::Ball), Ok(MeshId::Sphere));
    assert_eq!(MeshId::try_from_shape(ShapeKind::Cuboid), Ok(MeshId::Cube));
    assert_eq!(MeshId::try_from_shape(ShapeKind::Cylinder), Ok(MeshId::Cylinder));
    assert_eq!(MeshId::try_from_shape(ShapeKind::Other), Err(()));
}

#[test]
fn cube_has_two_triangles_per_face() {
    let indices = cube_indices();
    assert_eq!(indices.len(), 36);
    assert_eq!(&indices[0..6], &[0, 1, 2, 0, 2, 3]);
    assert_eq!(&indices[6..12], &[4, 5, 6, 4, 6, 7]);
    assert_eq!(&indices[30..36], &[20, 21, 22, 20, 22, 23]);
    assert!(indices.iter().all(|&i| i < CUBE_VERTEX_COUNT));
}

#[test]
fn small_sphere_index_buffer() {
    // Two sectors, two stacks: rings of three vertices, no triangle at the poles' degenerate side.
    let indices = sphere_indices(2, 2);
    assert_eq!(indices, vec![1, 4, 3, 2, 5, 4, 4, 6, 3, 5, 7, 4]);
}

#[test]
fn sphere_indices_stay_within_vertices() {
    let (sectors, stacks) = (16u32, 12u32);
    let indices = sphere_indices(sectors, stacks);
    assert_eq!(indices.len() as u32, 6 * sectors * (stacks - 1));
    let vertex_count = (stacks + 1) * (sectors + 1);
    assert!(indices.iter().all(|&i| i < vertex_count));
    // Every triangle of the top stack touches the top ring, every one of the bottom stack the bottom ring.
    assert!(indices[..3 * sectors as usize].iter().any(|&i| i <= sectors));
}

#[test]
fn degenerate_spheres_have_no_triangles() {
    assert!(sphere_indices(8, 0).is_empty());
    assert!(sphere_indices(8, 1).is_empty());
    assert!(sphere_indices(0, 5).is_empty());
}

#[test]
fn small_cylinder_index_buffer() {
    let indices = cylinder_indices(3);
    assert_eq!(indices.len(), 36);
    assert_eq!(&indices[0..12], &[0, 4, 1, 1, 4, 5, 2, 12, 6, 7, 13, 3]);
    // The last sector wraps around to the first edge.
    assert_eq!(&indices[24..36], &[8, 0, 9, 9, 0, 1, 10, 12, 2, 3, 13, 11]);
    assert!(indices.iter().all(|&i| i < 4 * 3 + 2));
}

#[test]
fn cylinder_indices_stay_within_vertices() {
    let indices = cylinder_indices(24);
    assert_eq!(indices.len(), 12 * 24);
    assert!(indices.iter().all(|&i| i < 4 * 24 + 2));
    assert!(cylinder_indices(0).is_empty());
}

#[test]
fn grouping_batches_instances_per_mesh_in_mesh_order() {
    let items = vec![
        (MeshId::Cylinder, 'a'),
        (MeshId::Cube, 'b'),
        (MeshId::Cylinder, 'c'),
        (MeshId::Cube, 'd'),
    ];
    let groups = group_instances_by_mesh(&items);
    assert_eq!(
        groups,
        vec![(MeshId::Cube, vec!['b', 'd']), (MeshId::Cylinder, vec!['a', 'c'])]
    );
    let total: usize = groups.iter().map(|g| g.1.len()).sum();
    assert_eq!(total, items.len());
}

#[test]
fn grouping_nothing_gives_no_groups() {
    let items: Vec<(MeshId, u8)> = Vec::new();
    assert!(group_instances_by_mesh(&items).is_empty());
}

#[test]
fn merging_frames_counts_meshes_that_get_their_first_instances() {
    let mut holders = empty_instance_holders::<u32>();
    let mut count = 0usize;
    let creature = vec![(MeshId::Sphere, vec![1, 2]), (MeshId::Cube, vec![3])];
    add_mesh_raw_instances_to_instance_holders(&creature, &mut holders, &mut count);
    assert_eq!(count, 2);
    let environment = vec![(MeshId::Cube, vec![4, 5]), (MeshId::Cylinder, vec![6])];
    add_mesh_raw_instances_to_instance_holders(&environment, &mut holders, &mut count);
    assert_eq!(count, 3);
    assert_eq!(holders, vec![vec![3, 4, 5], vec![1, 2], vec![6]]);
}

#[test]
fn an_empty_group_leaves_its_mesh_unopened() {
    let mut holders = empty_instance_holders::<u32>();
    let mut count = 0usize;
    let frame = vec![(MeshId::Cube, vec![]), (MeshId::Cube, vec![7])];
    add_mesh_raw_instances_to_instance_holders(&frame, &mut holders, &mut count);
    // The cube list was still empty when each of the two groups arrived.
    assert_eq!(count, 2);
    assert_eq!(holders[MeshId::Cube.index()], vec![7]);
}
