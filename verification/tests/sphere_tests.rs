use icosphere::fixed::ONE;
use icosphere::objects::{subdivide, Sphere, VTX_LIMIT};
use icosphere::traits::{rotate_around, scale_by, scaled_by, translate_by, Meshed, Shaded, Visible};
use icosphere::math::Mat4x4;
use icosphere::math::Vec3;

fn vertex_len_sq(vs: &[i64], v: usize) -> i128 {
    let x = vs[3 * v] as i128;
    let y = vs[3 * v + 1] as i128;
    let z = vs[3 * v + 2] as i128;
    (x * x + y * y + z * z) / (ONE as i128)
}

#[test]
fn level_zero_is_the_raw_icosahedron() {
    let s = Sphere::new(0);
    assert_eq!(s.vertices.len(), 36);
    assert_eq!(s.indices.len(), 60);
    assert_eq!(s.normals.len(), 36);
    // the poles
    assert_eq!(&s.vertices[0..3], &[0, 0, ONE]);
    assert_eq!(&s.vertices[33..36], &[0, 0, -ONE]);
    // the first face
    assert_eq!(&s.indices[0..3], &[0, 1, 2]);
    assert!(s.visible);
    assert_eq!(s.program, 0);
    assert_eq!(s.matrix, Mat4x4::identity());
}

#[test]
fn subdivision_counts_follow_the_closed_form() {
    // V(n) = 10 * 4^n + 2 vertices, F(n) = 20 * 4^n faces
    let s1 = Sphere::new(1);
    assert_eq!(s1.vertices.len(), 42 * 3);
    assert_eq!(s1.indices.len(), 80 * 3);
    assert_eq!(s1.normals.len(), 42 * 3);
    let s2 = Sphere::new(2);
    assert_eq!(s2.vertices.len(), 162 * 3);
    assert_eq!(s2.indices.len(), 320 * 3);
    let s3 = Sphere::new(3);
    assert_eq!(s3.vertices.len(), 642 * 3);
    assert_eq!(s3.indices.len(), 1280 * 3);
}

#[test]
fn every_vertex_lies_on_the_unit_sphere() {
    for level in 0..4usize {
        let s = Sphere::new(level);
        let n = s.vertices.len() / 3;
        for v in 0..n {
            let lsq = vertex_len_sq(&s.vertices, v);
            assert!(
                (lsq - ONE as i128).abs() <= 64,
                "level {} vertex {} has squared length {}",
                level,
                v,
                lsq
            );
        }
    }
}

#[test]
fn every_normal_is_unit_length_and_points_outward() {
    for level in 0..4usize {
        let s = Sphere::new(level);
        let n = s.vertices.len() / 3;
        assert_eq!(s.normals.len(), s.vertices.len());
        for v in 0..n {
            let lsq = vertex_len_sq(&s.normals, v);
            assert!(
                (lsq - ONE as i128).abs() <= 64,
                "level {} normal {} has squared length {}",
                level,
                v,
                lsq
            );
            let dot = s.normals[3 * v] as i128 * s.vertices[3 * v] as i128
                + s.normals[3 * v + 1] as i128 * s.vertices[3 * v + 1] as i128
                + s.normals[3 * v + 2] as i128 * s.vertices[3 * v + 2] as i128;
            assert!(dot > 0, "level {} vertex {} has inward normal", level, v);
        }
    }
}

#[test]
fn sphere_construction_is_deterministic() {
    // the mesh is a pure function of the level: two constructions
    // yield bitwise-identical buffers
    for level in 0..3usize {
        let a = Sphere::new(level);
        let b = Sphere::new(level);
        assert_eq!(a.vertices, b.vertices);
        assert_eq!(a.indices, b.indices);
        assert_eq!(a.normals, b.normals);
    }
}

#[test]
fn every_index_addresses_an_existing_vertex() {
    for level in 0..4usize {
        let s = Sphere::new(level);
        let n = (s.vertices.len() / 3) as u32;
        assert_eq!(s.indices.len() % 3, 0);
        for &i in s.indices.iter() {
            assert!(i < n);
        }
    }
}

#[test]
fn shared_edges_produce_one_midpoint_regardless_of_orientation() {
    // two triangles sharing the edge (1, 2): the first visits it as
    // (1, 2), the second as (2, 1)
    let mut vertices: Vec<i64> = vec![
        ONE, 0, 0,
        0, ONE, 0,
        0, 0, ONE,
        -ONE, 0, 0,
    ];
    let indices: Vec<u32> = vec![0, 1, 2, 2, 1, 3];
    let refined = subdivide(&mut vertices, &indices);
    // five distinct edges -> five midpoints; 4 + 5 = 9 vertices
    assert_eq!(vertices.len(), 9 * 3);
    assert_eq!(refined.len(), 24);
    // both triangles name the same midpoint vertex for the shared edge
    let mid_first = refined[1]; // midpoint of (0,1)-triangle's edge (1,2) is at slot 5
    let shared_first = refined[5];
    let shared_second = refined[12 + 1]; // second triangle's (2,1) midpoint
    assert_eq!(shared_first, shared_second);
    assert!(mid_first >= 4);
}

#[test]
fn midpoints_are_renormalized_means_of_their_endpoints() {
    let mut vertices: Vec<i64> = vec![
        ONE, 0, 0,
        0, ONE, 0,
        0, 0, ONE,
    ];
    let indices: Vec<u32> = vec![0, 1, 2];
    let refined = subdivide(&mut vertices, &indices);
    assert_eq!(vertices.len(), 6 * 3);
    assert_eq!(refined.len(), 12);
    // midpoint of edge (0, 1): mean is (0.5, 0.5, 0), renormalized
    let fs = refined[1] as usize;
    let mx = vertices[3 * fs];
    let my = vertices[3 * fs + 1];
    let mz = vertices[3 * fs + 2];
    let expected = (0.70710678_f64 * ONE as f64).round() as i64;
    assert!((mx - expected).abs() <= 256, "midpoint x {}", mx);
    assert!((my - expected).abs() <= 256, "midpoint y {}", my);
    assert_eq!(mz, 0);
}

#[test]
fn refined_triangles_keep_the_winding_pattern() {
    let mut vertices: Vec<i64> = vec![
        ONE, 0, 0,
        0, ONE, 0,
        0, 0, ONE,
    ];
    let indices: Vec<u32> = vec![0, 1, 2];
    let refined = subdivide(&mut vertices, &indices);
    let (f, s, t) = (0u32, 1u32, 2u32);
    let fs = refined[1];
    let ft = refined[2];
    let st = refined[5];
    assert_eq!(
        refined,
        vec![f, fs, ft, fs, s, st, ft, st, t, fs, st, ft]
    );
}

#[test]
fn unused_vertices_keep_a_zero_normal() {
    let mut s = Sphere::empty();
    s.set_vertices(vec![ONE, 0, 0, 0, ONE, 0]);
    s.set_indices(vec![]);
    s.calculate_normals();
    assert_eq!(s.get_normals().as_slice(), &[0i64, 0, 0, 0, 0, 0]);
}

#[test]
fn vertex_coordinates_stay_bounded() {
    let s = Sphere::new(2);
    for &c in s.vertices.iter() {
        assert!(c.abs() <= VTX_LIMIT);
    }
    for &c in s.normals.iter() {
        assert!(c.abs() <= 2 * ONE);
    }
}

#[test]
fn transform_operations_compose_onto_the_model_matrix() {
    let mut s = Sphere::new(0);
    translate_by(&mut s, Vec3 { x: 5 * ONE, y: 0, z: -10 * ONE });
    assert_eq!(s.matrix.m03, 5 * ONE);
    assert_eq!(s.matrix.m13, 0);
    assert_eq!(s.matrix.m23, -10 * ONE);
    let mut s2 = Sphere::new(0);
    scaled_by(&mut s2, 2 * ONE);
    assert_eq!(s2.matrix.m00, 2 * ONE);
    assert_eq!(s2.matrix.m11, 2 * ONE);
    assert_eq!(s2.matrix.m22, 2 * ONE);
    scale_by(&mut s2, Vec3 { x: ONE, y: 3 * ONE, z: ONE });
    assert_eq!(s2.matrix.m11, 6 * ONE);
    let mut s3 = Sphere::new(0);
    rotate_around(&mut s3, 90 * ONE, Vec3 { x: 0, y: ONE, z: 0 });
    assert!((s3.matrix.m02 - ONE).abs() <= 16);
}

#[test]
fn visibility_and_shader_program_round_trip() {
    let mut s = Sphere::new(0);
    assert!(s.get_visibility());
    s.set_visibility(false);
    assert!(!s.get_visibility());
    assert_eq!(s.get_shader_program(), 0);
    s.set_shader_program(7);
    assert_eq!(s.get_shader_program(), 7);
}

#[test]
fn mesh_accessors_round_trip() {
    let mut s = Sphere::empty();
    s.set_vertices(vec![1, 2, 3]);
    s.set_indices(vec![0, 0, 0]);
    s.set_normals(vec![4, 5, 6]);
    assert_eq!(s.get_vertices().as_slice(), &[1i64, 2, 3]);
    assert_eq!(s.get_indices().as_slice(), &[0u32, 0, 0]);
    assert_eq!(s.get_normals().as_slice(), &[4i64, 5, 6]);
}
