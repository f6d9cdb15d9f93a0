use source_wrench::process::mesh::{TriangleList, TriangleVertex};
use source_wrench::process::vertex_cache::{
    build_adjacency, optimize_vertex_cache, vertex_cache_order,
};

fn grid(width: usize, height: usize) -> (Vec<[usize; 3]>, usize) {
    let mut triangles = Vec::new();
    for y in 0..height {
        for x in 0..width {
            let a = y * (width + 1) + x;
            let b = a + 1;
            let c = a + width + 1;
            let d = c + 1;
            triangles.push([a, b, c]);
            triangles.push([b, d, c]);
        }
    }
    (triangles, (width + 1) * (height + 1))
}

fn is_permutation(order: &[usize], count: usize) -> bool {
    let mut seen = vec![false; count];
    for &t in order {
        if t >= count || seen[t] {
            return false;
        }
        seen[t] = true;
    }
    order.len() == count
}

#[test]
fn tables_list_the_triangles_of_each_vertex() {
    let triangles = vec![[0, 1, 2], [2, 1, 3], [3, 3, 0]];
    assert_eq!(
        build_adjacency(&triangles, 5),
        vec![vec![0, 2], vec![0, 1], vec![0, 1], vec![1, 2, 2], vec![]]
    );
}

#[test]
fn no_triangles_give_an_empty_order() {
    assert!(vertex_cache_order(&vec![], 0).is_empty());
    assert!(vertex_cache_order(&vec![], 5).is_empty());
}

#[test]
fn single_triangle_is_its_own_order() {
    assert_eq!(vertex_cache_order(&vec![[2, 0, 1]], 3), vec![0]);
}

#[test]
fn strip_stays_in_order() {
    let triangles = vec![[0, 1, 2], [2, 1, 3], [2, 3, 4], [4, 3, 5]];
    assert_eq!(vertex_cache_order(&triangles, 6), vec![0, 1, 2, 3]);
}

#[test]
fn neighbours_come_before_islands() {
    let triangles = vec![[0, 1, 2], [3, 4, 5], [2, 1, 6], [5, 4, 7]];
    assert_eq!(vertex_cache_order(&triangles, 8), vec![0, 2, 1, 3]);
}

#[test]
fn grid_follows_the_scores() {
    let (triangles, vertices) = grid(3, 3);
    assert_eq!(
        vertex_cache_order(&triangles, vertices),
        vec![0, 1, 6, 2, 7, 12, 13, 3, 8, 4, 5, 9, 14, 10, 15, 11, 16, 17]
    );
}

#[test]
fn repeated_corners_are_counted_once_for_each_corner() {
    let triangles = vec![[0, 0, 1], [1, 2, 0], [0, 1, 1], [2, 2, 2], [1, 0, 2]];
    assert_eq!(vertex_cache_order(&triangles, 3), vec![0, 2, 4, 1, 3]);
}

#[test]
fn cube_order() {
    let quads = [[0, 1, 2, 3], [4, 5, 6, 7], [0, 1, 5, 4], [2, 3, 7, 6], [1, 2, 6, 5], [0, 3, 7, 4]];
    let mut triangles = Vec::new();
    for q in quads {
        triangles.push([q[0], q[1], q[2]]);
        triangles.push([q[2], q[3], q[0]]);
    }
    assert_eq!(vertex_cache_order(&triangles, 8), vec![0, 8, 9, 4, 2, 5, 3, 11, 7, 1, 10, 6]);
}

#[test]
fn shuffled_grid_order() {
    let triangles: Vec<[usize; 3]> = vec![
        [7, 8, 14], [26, 33, 32], [5, 6, 12], [23, 24, 30], [29, 30, 36], [31, 38, 37],
        [17, 18, 24], [9, 10, 16], [0, 1, 7], [11, 18, 17], [14, 15, 21], [6, 13, 12],
        [4, 5, 11], [17, 24, 23], [34, 41, 40], [30, 37, 36], [12, 19, 18], [23, 30, 29],
        [12, 13, 19], [27, 34, 33], [10, 11, 17], [18, 25, 24], [16, 17, 23], [24, 25, 31],
        [26, 27, 33], [33, 34, 40], [32, 33, 39], [29, 36, 35], [10, 17, 16], [1, 8, 7],
        [22, 23, 29], [19, 26, 25], [33, 40, 39], [21, 22, 28], [8, 9, 15], [4, 11, 10],
        [28, 29, 35], [25, 32, 31], [20, 27, 26], [25, 26, 32], [9, 16, 15], [31, 32, 38],
        [15, 16, 22], [16, 23, 22], [3, 10, 9], [1, 2, 8], [8, 15, 14], [18, 19, 25],
        [32, 39, 38], [22, 29, 28], [13, 20, 19], [3, 4, 10], [19, 20, 26], [30, 31, 37],
        [2, 3, 9], [2, 9, 8], [24, 31, 30], [15, 22, 21], [5, 12, 11], [11, 12, 18],
    ];
    assert_eq!(
        vertex_cache_order(&triangles, 42),
        vec![
            0, 8, 29, 45, 46, 10, 55, 34, 54, 57, 33, 40, 42, 44, 7, 51, 49, 36, 27, 30, 43, 4,
            17, 15, 22, 28, 3, 13, 53, 56, 5, 20, 35, 12, 9, 6, 58, 59, 2, 11, 18, 16, 50, 21,
            47, 23, 52, 31, 38, 37, 39, 41, 48, 1, 26, 24, 32, 19, 25, 14
        ]
    );
}

#[test]
fn order_is_a_permutation_that_starts_with_the_first_triangle() {
    for (width, height) in [(1, 1), (2, 5), (7, 3), (12, 12)] {
        let (triangles, vertices) = grid(width, height);
        let order = vertex_cache_order(&triangles, vertices);
        assert!(is_permutation(&order, triangles.len()));
        assert_eq!(order[0], 0);
    }
}

#[test]
fn unused_vertices_do_not_matter() {
    let (triangles, vertices) = grid(4, 4);
    assert_eq!(
        vertex_cache_order(&triangles, vertices),
        vertex_cache_order(&triangles, vertices + 10)
    );
}

#[test]
fn list_is_put_in_the_order_and_keeps_its_vertices() {
    let (triangles, vertices) = grid(3, 3);
    let order = vertex_cache_order(&triangles, vertices);
    let mut list = TriangleList {
        vertices: (0..vertices).map(|v| TriangleVertex { part: 0, vertex: v, links: vec![] }).collect(),
        triangles: triangles.clone(),
    };
    optimize_vertex_cache(&mut list);
    let expected: Vec<[usize; 3]> = order.iter().map(|&t| triangles[t]).collect();
    assert_eq!(list.triangles, expected);
    assert_eq!(list.vertices.len(), vertices);
    assert!(list.vertices.iter().enumerate().all(|(i, v)| v.vertex == i));
}
