use source_wrench::process::mesh::triangulate::{select_fan_pivot, triangulate_face, FAN_COST_LIMIT};
use source_wrench::process::mesh::{TriangleList, TriangleVertex, TriangleVertexLink};
use source_wrench::process::strips::finalize_triangle_list;

fn face(corners: &[usize]) -> Vec<usize> {
    corners.to_vec()
}

fn linked(bones: &[usize]) -> TriangleVertex {
    TriangleVertex {
        part: 0,
        vertex: 0,
        links: bones
            .iter()
            .enumerate()
            .map(|(slot, &bone)| TriangleVertexLink { bone, sources: vec![slot] })
            .collect(),
    }
}

#[test]
fn triangle_stays_as_it_is() {
    assert_eq!(triangulate_face(&face(&[7, 8, 9]), 0), vec![[7, 8, 9]]);
    assert_eq!(triangulate_face(&face(&[7, 8, 9]), 2), vec![[7, 8, 9]]);
}

#[test]
fn quadrilateral_is_cut_along_first_diagonal() {
    assert_eq!(triangulate_face(&face(&[4, 5, 6, 7]), 3), vec![[4, 5, 6], [6, 7, 4]]);
}

#[test]
fn pentagon_becomes_fan_around_pivot() {
    assert_eq!(
        triangulate_face(&face(&[10, 11, 12, 13, 14]), 3),
        vec![[13, 14, 10], [13, 10, 11], [13, 11, 12]]
    );
    assert_eq!(
        triangulate_face(&face(&[10, 11, 12, 13, 14]), 0),
        vec![[10, 11, 12], [10, 12, 13], [10, 13, 14]]
    );
}

#[test]
fn triangulation_keeps_every_corner() {
    for count in 3..12usize {
        let corners: Vec<usize> = (0..count).map(|i| 100 + i).collect();
        for pivot in 0..count {
            let triangles = triangulate_face(&corners, pivot);
            assert_eq!(triangles.len(), count - 2);
            let mut seen: Vec<usize> = triangles.iter().flatten().copied().collect();
            seen.sort();
            seen.dedup();
            assert_eq!(seen, corners);
        }
    }
}

#[test]
fn pivot_is_first_of_least_cost() {
    assert_eq!(select_fan_pivot(&vec![5, 3, 9, 3, 4]), 1);
    assert_eq!(select_fan_pivot(&vec![2, 3, 9, 3, 4]), 0);
    assert_eq!(select_fan_pivot(&vec![9, 8, 7, 6, 5]), 4);
}

#[test]
fn pivot_ignores_costs_at_the_limit() {
    assert_eq!(select_fan_pivot(&vec![FAN_COST_LIMIT, u64::MAX, FAN_COST_LIMIT]), 0);
    assert_eq!(select_fan_pivot(&vec![u64::MAX, FAN_COST_LIMIT, FAN_COST_LIMIT - 1]), 2);
    assert_eq!(select_fan_pivot(&vec![]), 0);
}

#[test]
fn pivot_follows_the_order_of_distances() {
    let distances = [3.5f64, 0.25, 0.25, f64::INFINITY, f64::NAN];
    let costs: Vec<u64> = distances.iter().map(|d| d.to_bits()).collect();
    assert_eq!(select_fan_pivot(&costs), 1);
    let none = [f64::INFINITY, f64::NAN, f64::MAX];
    let costs: Vec<u64> = none.iter().map(|d| d.to_bits()).collect();
    assert_eq!(select_fan_pivot(&costs), 0);
}

#[test]
fn single_triangle_gives_one_mesh_with_one_strip() {
    let list = TriangleList {
        vertices: vec![linked(&[4]), linked(&[4, 2]), linked(&[2])],
        triangles: vec![[0, 1, 2], [2, 1, 0]],
    };
    let meshes = finalize_triangle_list(6, &list);
    assert_eq!(meshes.len(), 1);
    let mesh = &meshes[0];
    assert_eq!(mesh.material, 6);
    assert_eq!(mesh.strip_groups.len(), 1);
    let group = &mesh.strip_groups[0];
    assert_eq!(group.indices, vec![0, 1, 2, 2, 1, 0]);
    assert_eq!(group.strips.len(), 1);
    let strip = &group.strips[0];
    assert_eq!(strip.indices_count, 6);
    assert_eq!(strip.indices_offset, 0);
    assert_eq!(strip.vertex_count, 3);
    assert_eq!(strip.vertex_offset, 0);
    assert_eq!(strip.bone_count, 2);
    let palette: Vec<(i32, i32)> =
        strip.hardware_bones.iter().map(|b| (b.hardware_bone, b.bone_table_bone)).collect();
    assert_eq!(palette, vec![(0, 4), (1, 2)]);
    let sources: Vec<usize> = mesh.vertex_data.iter().map(|v| v.source).collect();
    assert_eq!(sources, vec![0, 1, 2]);
    assert_eq!(mesh.vertex_data[1].bones, [4, 2, 0]);
    assert_eq!(mesh.vertex_data[1].bone_count, 2);
    assert_eq!(group.vertices[1].bones, [0, 1, 0]);
    assert_eq!(group.vertices[2].bones, [1, 0, 0]);
    assert_eq!(group.vertices[2].vertex_index, 2);
    assert_eq!(group.vertices[2].bone_count, 1);
}

#[test]
fn no_triangles_give_one_empty_mesh() {
    let list = TriangleList { vertices: vec![], triangles: vec![] };
    let meshes = finalize_triangle_list(0, &list);
    assert_eq!(meshes.len(), 1);
    assert!(meshes[0].vertex_data.is_empty());
    assert_eq!(meshes[0].strip_groups[0].strips[0].indices_count, 0);
}

#[test]
fn strip_splits_on_fifty_fourth_bone() {
    // 17 triangles bring bones 0..51, one more brings 51 and 52: the palette
    // is full. The next triangle brings bone 53 with its first corner.
    let mut vertices = Vec::new();
    let mut triangles = Vec::new();
    for t in 0..17usize {
        for c in 0..3usize {
            vertices.push(linked(&[3 * t + c]));
        }
        triangles.push([3 * t, 3 * t + 1, 3 * t + 2]);
    }
    vertices.push(linked(&[51]));
    vertices.push(linked(&[52]));
    vertices.push(linked(&[0]));
    triangles.push([51, 52, 53]);
    vertices.push(linked(&[53]));
    vertices.push(linked(&[1]));
    vertices.push(linked(&[2]));
    triangles.push([54, 55, 56]);
    let list = TriangleList { vertices, triangles };
    let meshes = finalize_triangle_list(0, &list);
    assert_eq!(meshes.len(), 2);
    let first = &meshes[0].strip_groups[0].strips[0];
    let second = &meshes[1].strip_groups[0].strips[0];
    assert_eq!(first.hardware_bones.len(), 53);
    assert_eq!(first.indices_count, 54);
    assert_eq!(second.indices_count, 3);
    assert_eq!(second.hardware_bones[0].bone_table_bone, 53);
    assert_eq!(second.hardware_bones[0].hardware_bone, 0);
    assert_eq!(second.hardware_bones.len(), 3);
    assert_eq!(meshes[1].strip_groups[0].indices, vec![0, 1, 2]);
    assert_eq!(meshes[1].vertex_data[0].source, 54);
}

#[test]
fn split_counts_a_new_bone_once_for_each_link() {
    // The palette holds 51 bones. The next triangle has three fresh corners
    // that all link to the same new bone: one bone more, counted three times.
    let mut vertices = Vec::new();
    let mut triangles = Vec::new();
    for t in 0..17usize {
        for c in 0..3usize {
            vertices.push(linked(&[3 * t + c]));
        }
        triangles.push([3 * t, 3 * t + 1, 3 * t + 2]);
    }
    for _ in 0..3 {
        vertices.push(linked(&[60]));
    }
    triangles.push([51, 52, 53]);
    let list = TriangleList { vertices, triangles };
    let meshes = finalize_triangle_list(0, &list);
    assert_eq!(meshes.len(), 2);
    assert_eq!(meshes[0].strip_groups[0].strips[0].hardware_bones.len(), 51);
    assert_eq!(meshes[1].strip_groups[0].strips[0].hardware_bones.len(), 1);
}

#[test]
fn strip_group_splits_at_the_index_limit() {
    let count = 65536 / 3 + 2;
    let mut vertices = Vec::new();
    let mut triangles = Vec::new();
    for t in 0..count {
        for _ in 0..3 {
            vertices.push(linked(&[0]));
        }
        triangles.push([3 * t, 3 * t + 1, 3 * t + 2]);
    }
    let list = TriangleList { vertices, triangles };
    let meshes = finalize_triangle_list(1, &list);
    assert_eq!(meshes.len(), 2);
    assert_eq!(meshes[0].strip_groups[0].vertices.len(), 65535);
    assert_eq!(meshes[1].strip_groups[0].vertices.len(), 6);
    for mesh in &meshes {
        assert!(mesh.strip_groups[0].vertices.len() <= 65536);
        assert!(mesh.strip_groups[0].strips[0].hardware_bones.len() <= 53);
    }
    assert_eq!(*meshes[0].strip_groups[0].indices.last().unwrap(), 65534);
}
