use engine_core::cubes::{generate_marching_cubes_case, CubeCell, CubeTables, MarchingCubes, MarchingCubesSkirts, MesherSettings, SquareTables};
use engine_core::squares::{
    calculate_skirt, create_triangle, crossing_edges, calculate_marching_square_case, solve_marching_squares,
    solve_open_marching_squares,
    square_case, SkirtPoint, SkirtSquare,
};

#[test]
fn square_cases_are_the_bits_of_inside_corners() {
    assert_eq!(square_case([true, false, false, false]), 1);
    assert_eq!(square_case([false, true, false, true]), 10);
    assert_eq!(square_case([true, true, true, true]), 15);
    assert_eq!(calculate_marching_square_case([false; 4], true), None);
    assert_eq!(calculate_marching_square_case([true; 4], false), None);
    assert_eq!(calculate_marching_square_case([true; 4], true), Some(15));
    assert_eq!(calculate_marching_square_case([false, false, true, false], false), Some(4));
}

#[test]
fn crossing_edges_join_an_inside_and_an_outside_corner() {
    // Corner 0 inside: edges 0 (0-1) and 3 (3-0) cross.
    assert_eq!(crossing_edges(1), [true, false, false, true]);
    assert_eq!(crossing_edges(3), [false, true, false, true]);
    assert_eq!(crossing_edges(15), [false; 4]);
    assert_eq!(crossing_edges(5), [true; 4]);
}

#[test]
fn skirt_triangles_and_their_flip() {
    assert_eq!(solve_marching_squares(1, false), vec![SkirtPoint::Corner(0), SkirtPoint::Edge(3), SkirtPoint::Edge(0)]);
    assert_eq!(solve_marching_squares(1, true), vec![SkirtPoint::Edge(0), SkirtPoint::Edge(3), SkirtPoint::Corner(0)]);
    assert_eq!(solve_marching_squares(0, false), vec![]);
    let quad = solve_marching_squares(15, false);
    assert_eq!(quad, vec![SkirtPoint::Corner(0), SkirtPoint::Corner(3), SkirtPoint::Corner(1), SkirtPoint::Corner(3), SkirtPoint::Corner(2), SkirtPoint::Corner(1)]);
    assert_eq!(create_triangle([2, 5, 4]), [SkirtPoint::Corner(1), SkirtPoint::Edge(2), SkirtPoint::Corner(2)]);
}

#[test]
fn skirt_edge_points_lie_on_crossing_edges() {
    for case in 1u8..16 {
        let edges = crossing_edges(case);
        for flip in [false, true] {
            let pts = solve_marching_squares(case, flip);
            assert_eq!(pts.len() % 3, 0);
            for p in pts {
                if let SkirtPoint::Edge(j) = p {
                    assert!(edges[j as usize], "case {} edge {}", case, j);
                }
            }
        }
    }
}

#[test]
fn cube_cases_are_the_bits_of_corners_above_the_surface() {
    assert_eq!(generate_marching_cubes_case([false; 8]), 0);
    assert_eq!(generate_marching_cubes_case([true; 8]), 255);
    assert_eq!(generate_marching_cubes_case([true, false, false, false, false, false, false, true]), 129);
}

fn tiny_tables() -> CubeTables {
    let mut triangles = vec![vec![-1i8]; 256];
    // Case 1: one triangle over edges 0, 3, 8; case 2: edges 0, 1, 9.
    triangles[1] = vec![0, 3, 8, -1];
    triangles[2] = vec![0, 1, 9, -1];
    CubeTables {
        triangles,
        edges: vec![(0, 1), (1, 2), (2, 3), (3, 0), (4, 5), (5, 6), (6, 7), (7, 4), (0, 4), (1, 5), (2, 6), (3, 7)],
        corners: vec![(0, 0, 0), (1, 0, 0), (1, 1, 0), (0, 1, 0), (0, 0, 1), (1, 0, 1), (1, 1, 1), (0, 1, 1)],
    }
}

#[test]
fn marching_cubes_merges_shared_vertices() {
    let settings = MesherSettings { interpolation: true, skirts: false };
    let mc = MarchingCubes::new(settings);
    assert!(mc.interpolation());
    let tables = tiny_tables();
    assert_eq!(mc.cell_edges(&tables, 1), vec![0, 3, 8]);
    assert_eq!(mc.cell_edges(&tables, 0), vec![]);
    assert_eq!(mc.cell_edges(&tables, 255), vec![]);
    // The same cell twice: its three vertices are shared.
    let cell = CubeCell { case: 1, x: 0, y: 0, z: 0 };
    let mesh = mc.build(&tables, &vec![cell, cell]);
    assert_eq!(mesh.indices, vec![0, 1, 2, 0, 1, 2]);
    assert_eq!(mesh.vertices, vec![(0, 0), (0, 3), (0, 8)]);
    // Cases 1 and 2 of the same cell share edge 0 only.
    let other = CubeCell { case: 2, x: 0, y: 0, z: 0 };
    let mesh = mc.build(&tables, &vec![cell, other]);
    assert_eq!(mesh.indices, vec![0, 1, 2, 0, 3, 4]);
    // The shared vertex keeps the first cell that made it.
    assert_eq!(mesh.vertices, vec![(0, 0), (0, 3), (0, 8), (1, 1), (1, 9)]);
    assert_eq!(mesh.indices.len() % 3, 0);
    let empty = mc.build(&tables, &vec![CubeCell { case: 0, x: 1, y: 1, z: 1 }]);
    assert!(empty.indices.is_empty());
}

#[test]
fn skirt_builder_keeps_its_settings() {
    let on = MarchingCubesSkirts::new(MesherSettings { interpolation: false, skirts: true });
    assert!(on.enabled());
    let off = MarchingCubesSkirts::new(MesherSettings { interpolation: false, skirts: false });
    assert!(!off.enabled());
}

#[test]
fn skirts_of_both_slices_face_opposite_ways() {
    let square = |inside: [bool; 4]| SkirtSquare { inside, force: false };
    let squares = vec![
        square([true, false, false, false]),
        square([false; 4]),
        square([true, false, false, false]),
        square([true; 4]),
    ];
    let skirt = calculate_skirt(&squares, 2, false);
    assert_eq!(skirt.len(), 2);
    assert_eq!(skirt[0].0, 0);
    assert_eq!(skirt[0].1, solve_marching_squares(1, false));
    assert_eq!(skirt[1].0, 2);
    assert_eq!(skirt[1].1, solve_marching_squares(1, true));
    let forced = vec![SkirtSquare { inside: [true; 4], force: true }];
    assert_eq!(calculate_skirt(&forced, 1, true)[0].1, solve_marching_squares(15, true));
}

fn square_tables() -> SquareTables {
    let mut case_edges = vec![vec![-1i8]; 16];
    let mut case_triangles = vec![vec![-1i8, -1, -1]; 16];
    case_edges[1] = vec![0, 3, -1];
    case_triangles[1] = vec![0, 7, 1, -1, -1, -1];
    case_edges[3] = vec![1, 3, -1];
    case_triangles[3] = vec![0, 7, 2, 2, 7, 3, -1, -1, -1];
    SquareTables { case_edges, case_triangles }
}

#[test]
fn table_driven_skirts_follow_their_tables() {
    let tables = square_tables();
    let builder = MarchingCubesSkirts::new(MesherSettings { interpolation: true, skirts: true });
    assert_eq!(
        builder.solve_marching_squares(&tables, 3, false),
        vec![
            SkirtPoint::Corner(0), SkirtPoint::Edge(3), SkirtPoint::Corner(1),
            SkirtPoint::Corner(1), SkirtPoint::Edge(3), SkirtPoint::Edge(1),
        ]
    );
    assert_eq!(
        builder.solve_marching_squares(&tables, 1, true),
        vec![SkirtPoint::Edge(0), SkirtPoint::Edge(3), SkirtPoint::Corner(0)]
    );
    let squares = vec![([true, false, false, false], false), ([true; 4], false), ([true, true, false, false], true)];
    let built = builder.build(&tables, &squares);
    assert_eq!(built.len(), 2);
    assert_eq!(built[0].0, 0);
    assert_eq!(built[1].0, 2);
    assert_eq!(built[1].1, builder.solve_marching_squares(&tables, 3, true));
    let off = MarchingCubesSkirts::new(MesherSettings { interpolation: true, skirts: false });
    assert!(off.build(&tables, &squares).is_empty());
}

#[test]
fn the_open_mesher_leaves_full_squares_open() {
    assert!(solve_open_marching_squares(15, false).is_empty());
    assert!(solve_open_marching_squares(15, true).is_empty());
    assert!(solve_open_marching_squares(0, false).is_empty());
    for case in 1..15u8 {
        assert_eq!(solve_open_marching_squares(case, true), solve_marching_squares(case, true));
    }
    assert_eq!(solve_marching_squares(15, false).len(), 6);
}

#[test]
fn cells_wholly_outside_or_inside_give_no_mesh() {
    let mc = MarchingCubes::new(MesherSettings { interpolation: false, skirts: false });
    let tables = tiny_tables();
    let cells = vec![CubeCell { case: 0, x: 0, y: 0, z: 0 }, CubeCell { case: 255, x: 1, y: 0, z: 0 }];
    let mesh = mc.build(&tables, &cells);
    assert!(mesh.vertices.is_empty());
    assert!(mesh.indices.is_empty());
}

#[test]
fn skirt_models_give_each_vertex_its_own_index() {
    let tables = square_tables();
    let builder = MarchingCubesSkirts::new(MesherSettings { interpolation: true, skirts: true });
    let squares = vec![([true, false, false, false], false), ([true; 4], false), ([true, true, false, false], true)];
    let mesh = builder.build_mesh(&tables, &squares, 10);
    assert_eq!(mesh.vertices.len(), 9);
    assert_eq!(mesh.indices, (10..19).collect::<Vec<u32>>());
    assert_eq!(mesh.vertices[0], (0, SkirtPoint::Corner(0)));
    assert_eq!(mesh.vertices[3], (2, SkirtPoint::Corner(1)));
    let off = MarchingCubesSkirts::new(MesherSettings { interpolation: true, skirts: false });
    let none = off.build_mesh(&tables, &squares, 0);
    assert!(none.vertices.is_empty() && none.indices.is_empty());
}
