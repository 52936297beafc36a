//! Fixed-point arithmetic, transforms and the built-in meshes on concrete
//! values.

use game_ecs::components::TransformComponent;
use game_ecs::fixed::{fx_mul, FX_ONE};
use game_ecs::geometry::{
    apply_model, get_cube, get_ground_quad, get_triangle, mat3_identity, BoundingBox, Mat3,
    ModelMatrix, Vector3, Vertex, DECI,
};
use game_ecs::systems::CollisionSystem;

fn v3(x: i64, y: i64, z: i64) -> Vector3 {
    Vector3 { x, y, z }
}

#[test]
fn fixed_point_products_are_exact() {
    // 2.5 * 2.0 == 5.0
    assert_eq!(fx_mul(2_500_000, 2_000_000), 5_000_000);
    // (-1.5) * 2.0 == -3.0
    assert_eq!(fx_mul(-1_500_000, 2_000_000), -3_000_000);
    // 1.0 * x == x
    assert_eq!(fx_mul(FX_ONE, 123_456), 123_456);
    assert_eq!(fx_mul(0, 999_999), 0);
    // truncation toward zero on both signs
    assert_eq!(fx_mul(1, 1), 0);
    assert_eq!(fx_mul(-1, 1), 0);
}

#[test]
fn identity_transform_moves_nothing() {
    let m = ModelMatrix {
        linear: mat3_identity(),
        translation: v3(0, 0, 0),
    };
    let p = apply_model(&m, v3(250_000, -FX_ONE, 3 * FX_ONE));
    assert_eq!(p, v3(250_000, -FX_ONE, 3 * FX_ONE));
}

#[test]
fn translation_adds_to_every_point() {
    let m = ModelMatrix {
        linear: mat3_identity(),
        translation: v3(5 * FX_ONE, 0, -FX_ONE),
    };
    let p = apply_model(&m, v3(FX_ONE, FX_ONE, FX_ONE));
    assert_eq!(p, v3(6 * FX_ONE, FX_ONE, 0));
}

#[test]
fn transform_translate_updates_position_and_matrix() {
    let mut t = TransformComponent::new(
        v3(0, 0, 0),
        v3(0, 0, 0),
        v3(FX_ONE, FX_ONE, FX_ONE),
    );
    t.translate(v3(FX_ONE, 2 * FX_ONE, 0));
    assert_eq!(t.position, v3(FX_ONE, 2 * FX_ONE, 0));
    assert_eq!(t.model_matrix.translation, v3(FX_ONE, 2 * FX_ONE, 0));
    // the linear part is still the unit scale
    assert_eq!(t.model_matrix.linear, mat3_identity());
}

#[test]
fn transform_scale_multiplies_factors() {
    let mut t = TransformComponent::new(
        v3(0, 0, 0),
        v3(0, 0, 0),
        v3(2 * FX_ONE, 2 * FX_ONE, 2 * FX_ONE),
    );
    t.scale(v3(FX_ONE / 2, FX_ONE / 2, FX_ONE / 2));
    assert_eq!(t.scale, v3(FX_ONE, FX_ONE, FX_ONE));
    assert_eq!(t.model_matrix.linear, mat3_identity());
}

#[test]
fn set_rotation_matrix_scales_columns() {
    // a quarter turn about the vertical axis, exact in fixed point
    let quarter_turn = Mat3 {
        r0: v3(0, 0, FX_ONE),
        r1: v3(0, FX_ONE, 0),
        r2: v3(-FX_ONE, 0, 0),
    };
    let mut t = TransformComponent::new(
        v3(0, 0, 0),
        v3(0, 0, 0),
        v3(FX_ONE, FX_ONE, FX_ONE),
    );
    t.set_rotation_matrix(quarter_turn);
    let p = apply_model(&t.model_matrix, v3(FX_ONE, 0, 0));
    assert_eq!(p, v3(0, 0, -FX_ONE));
}

#[test]
fn apply_to_vertex_keeps_colour() {
    let t = TransformComponent::new(
        v3(FX_ONE, 0, 0),
        v3(0, 0, 0),
        v3(FX_ONE, FX_ONE, FX_ONE),
    );
    let v = Vertex {
        position: v3(0, FX_ONE, 0),
        color: v3(0, FX_ONE, 0),
        should_wave: 1,
    };
    let moved = t.apply_to_vertex(&v);
    assert_eq!(moved.position, v3(FX_ONE, FX_ONE, 0));
    assert_eq!(moved.color, v3(0, FX_ONE, 0));
    assert_eq!(moved.should_wave, 1);
}

#[test]
fn triangle_corners_are_exact() {
    // centre (0.5, 0.5) maps to the origin; size 0.1
    let tri = get_triangle(FX_ONE / 2, FX_ONE / 2, DECI);
    assert_eq!(tri.len(), 3);
    assert_eq!(tri[0].position, v3(0, DECI, 0));
    assert_eq!(tri[1].position, v3(-DECI, -DECI, 0));
    assert_eq!(tri[2].position, v3(DECI, -DECI, 0));
    assert_eq!(tri[0].color, v3(FX_ONE, 0, 0));
    assert_eq!(tri[1].color, v3(0, FX_ONE, 0));
    assert_eq!(tri[2].color, v3(0, 0, FX_ONE));
    assert_eq!(tri[0].should_wave, 1);
}

#[test]
fn ground_quad_has_four_corners_two_triangles() {
    let (vertices, indices) = get_ground_quad();
    assert_eq!(vertices.len(), 4);
    assert_eq!(indices, vec![0, 1, 2, 2, 3, 0]);
    assert_eq!(vertices[0].position, v3(-DECI, 0, -DECI));
    assert_eq!(vertices[2].position, v3(DECI, 0, DECI));
    assert!(vertices.iter().all(|v| v.should_wave == 0));
}

#[test]
fn cube_has_twenty_four_corners_thirty_six_indices() {
    let (vertices, indices) = get_cube();
    assert_eq!(vertices.len(), 24);
    assert_eq!(indices.len(), 36);
    // first face winds 0-1-2 2-3-0
    assert_eq!(&indices[0..6], &[0, 1, 2, 2, 3, 0]);
    // last face uses the last four corners
    assert_eq!(&indices[30..36], &[20, 21, 22, 22, 23, 20]);
    assert!(vertices
        .iter()
        .all(|v| v.position.x.abs() == DECI && v.position.y.abs() == DECI
            && v.position.z.abs() == DECI));
}

#[test]
fn boxes_intersect_only_when_overlapping_on_all_axes() {
    let a = BoundingBox {
        min: v3(0, 0, 0),
        max: v3(FX_ONE, FX_ONE, FX_ONE),
    };
    let b = BoundingBox {
        min: v3(FX_ONE / 2, FX_ONE / 2, FX_ONE / 2),
        max: v3(2 * FX_ONE, 2 * FX_ONE, 2 * FX_ONE),
    };
    let c = BoundingBox {
        min: v3(2 * FX_ONE, 0, 0),
        max: v3(3 * FX_ONE, FX_ONE, FX_ONE),
    };
    assert!(CollisionSystem::bounding_boxes_intersect(&a, &b));
    assert!(!CollisionSystem::bounding_boxes_intersect(&a, &c));
    // touching edges count as intersecting
    let d = BoundingBox {
        min: v3(FX_ONE, 0, 0),
        max: v3(2 * FX_ONE, FX_ONE, FX_ONE),
    };
    assert!(CollisionSystem::bounding_boxes_intersect(&a, &d));
}
