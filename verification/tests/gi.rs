use cocos_engine::gi::{fill_cavity, link_outer_cells, match_tetrahedron_faces, sort_three, uniform_grid, PlaceMethod, SH_BASIS_COUNT};

#[test]
fn test_sort_three() {
    assert_eq!(sort_three(3, 1, 2), (1, 2, 3));
    assert_eq!(sort_three(0, 2, 1), (0, 1, 2));
}

#[test]
fn test_sh_basis_count() {
    assert_eq!(SH_BASIS_COUNT, 9);
}

#[test]
fn test_uniform_placement() {
    let probes = uniform_grid(3, 3, 3);
    assert_eq!(probes.len(), 27);
}

#[test]
fn test_uniform_placement_too_small() {
    let probes = uniform_grid(1, 2, 2);
    assert!(probes.is_empty());
}

#[test]
fn test_adaptive_placement() {
    let probes = uniform_grid(2, 2, 2);
    assert_eq!(probes.len(), 8);
}

#[test]
fn test_place_method_equality() {
    assert_eq!(PlaceMethod::Uniform, PlaceMethod::Uniform);
    assert_ne!(PlaceMethod::Uniform, PlaceMethod::Adaptive);
}

#[test]
fn test_sort_three_all_orders() {
    for (a, b, c) in [(1, 2, 3), (1, 3, 2), (2, 1, 3), (2, 3, 1), (3, 1, 2), (3, 2, 1)] {
        assert_eq!(sort_three(a, b, c), (1, 2, 3));
    }
    assert_eq!(sort_three(-1, -1, -5), (-5, -1, -1));
}

#[test]
fn test_uniform_grid_order() {
    let cells = uniform_grid(2, 3, 2);
    assert_eq!(cells.len(), 12);
    assert_eq!(cells[0], (0, 0, 0));
    assert_eq!(cells[1], (0, 0, 1));
    assert_eq!(cells[2], (0, 1, 0));
    assert_eq!(cells[6], (1, 0, 0));
    assert_eq!(cells[11], (1, 2, 1));
}

#[test]
fn test_match_tetrahedron_faces_shared_face() {
    let tets = vec![(0, 1, 2, 3), (0, 2, 1, 4)];
    let (links, outer) = match_tetrahedron_faces(&tets);
    assert_eq!(links, vec![(0, 3, 1), (1, 3, 0)]);
    assert_eq!(outer.len(), 6);
    let outer_ids: Vec<(usize, usize)> = outer.iter().map(|f| (f.tetrahedron, f.index)).collect();
    assert_eq!(outer_ids, vec![(0, 0), (0, 1), (0, 2), (1, 0), (1, 1), (1, 2)]);
    assert_eq!(outer[0].vertices, (1, 2, 3));
    assert_eq!(outer[0].opposite, 0);
}

#[test]
fn test_match_tetrahedron_faces_single() {
    let (links, outer) = match_tetrahedron_faces(&vec![(5, 6, 7, 8)]);
    assert!(links.is_empty());
    assert_eq!(outer.len(), 4);
    assert_eq!(outer[3].vertices, (5, 6, 7));
    assert_eq!(outer[3].opposite, 8);
}

#[test]
fn test_link_outer_cells_shared_edge() {
    let links = link_outer_cells(5, &vec![(0, 1, 2), (1, 0, 3)]);
    assert_eq!(links, vec![(5, 2, 6), (6, 2, 5)]);
    assert!(link_outer_cells(0, &vec![(0, 1, 2)]).is_empty());
}

#[test]
fn test_fill_cavity_two_tetrahedra() {
    let fill = fill_cavity(&vec![(0, 1, 2, 3), (0, 2, 1, 4)], 9);
    assert_eq!(
        fill,
        vec![(1, 2, 3, 9), (0, 2, 3, 9), (0, 1, 3, 9), (1, 2, 4, 9), (0, 1, 4, 9), (0, 2, 4, 9)]
    );
}
