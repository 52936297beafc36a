//! Geometric data: vectors, vertices, bounding boxes, and the affine model
//! matrix, all over fixed-point scalars, together with the built-in meshes.

use vstd::prelude::*;

use crate::fixed::{fx_mul, fx_mul_spec, fx_ok, pos_ok, FX_ONE, FX_PROD_BOUND, POS_LIMIT};

verus! {

/// A three-component fixed-point vector.
#[derive(Clone, Copy, Debug, PartialEq, Eq, Structural)]
pub struct Vector3 {
    pub x: i64,
    pub y: i64,
    pub z: i64,
}

/// A mesh vertex: a position, a colour, and a flag the shader reads.
#[derive(Clone, Copy, Debug, PartialEq, Eq, Structural)]
pub struct Vertex {
    pub position: Vector3,
    pub color: Vector3,
    pub should_wave: u32,
}

/// An axis-aligned box given by its per-axis minima and maxima.
#[derive(Clone, Copy, Debug, PartialEq, Eq, Structural)]
pub struct BoundingBox {
    pub min: Vector3,
    pub max: Vector3,
}

/// A three-by-three matrix stored by rows.
#[derive(Clone, Copy, Debug, PartialEq, Eq, Structural)]
pub struct Mat3 {
    pub r0: Vector3,
    pub r1: Vector3,
    pub r2: Vector3,
}

/// An affine transform: a linear part applied first, then a translation.
#[derive(Clone, Copy, Debug, PartialEq, Eq, Structural)]
pub struct ModelMatrix {
    pub linear: Mat3,
    pub translation: Vector3,
}

/// Every component of the vector may be a multiplication operand.
pub open spec fn vec_fx_ok(v: Vector3) -> bool {
    fx_ok(v.x) && fx_ok(v.y) && fx_ok(v.z)
}

/// Every component of the vector may take part in sums with products.
pub open spec fn vec_pos_ok(v: Vector3) -> bool {
    pos_ok(v.x) && pos_ok(v.y) && pos_ok(v.z)
}

/// Every entry of the matrix lies within one unit; true of any rotation.
pub open spec fn rot_ok(m: Mat3) -> bool {
    &&& -FX_ONE <= m.r0.x <= FX_ONE && -FX_ONE <= m.r0.y <= FX_ONE && -FX_ONE <= m.r0.z
        <= FX_ONE
    &&& -FX_ONE <= m.r1.x <= FX_ONE && -FX_ONE <= m.r1.y <= FX_ONE && -FX_ONE <= m.r1.z
        <= FX_ONE
    &&& -FX_ONE <= m.r2.x <= FX_ONE && -FX_ONE <= m.r2.y <= FX_ONE && -FX_ONE <= m.r2.z
        <= FX_ONE
}

/// Every entry of the matrix may be a multiplication operand.
pub open spec fn mat_fx_ok(m: Mat3) -> bool {
    vec_fx_ok(m.r0) && vec_fx_ok(m.r1) && vec_fx_ok(m.r2)
}

/// The model matrix may be applied to an in-bounds point without overflow.
pub open spec fn model_ok(m: ModelMatrix) -> bool {
    mat_fx_ok(m.linear) && vec_pos_ok(m.translation)
}

/// The identity rotation.
pub open spec fn mat3_identity_spec() -> Mat3 {
    Mat3 {
        r0: Vector3 { x: FX_ONE, y: 0, z: 0 },
        r1: Vector3 { x: 0, y: FX_ONE, z: 0 },
        r2: Vector3 { x: 0, y: 0, z: FX_ONE },
    }
}

/// The identity rotation.
pub fn mat3_identity() -> (m: Mat3)
    ensures
        m == mat3_identity_spec(),
{
    Mat3 {
        r0: Vector3 { x: FX_ONE, y: 0, z: 0 },
        r1: Vector3 { x: 0, y: FX_ONE, z: 0 },
        r2: Vector3 { x: 0, y: 0, z: FX_ONE },
    }
}

/// One row of a matrix-vector product, plus a translation entry.
pub open spec fn apply_row_spec(row: Vector3, t: int, p: Vector3) -> int {
    fx_mul_spec(row.x as int, p.x as int) + fx_mul_spec(row.y as int, p.y as int) + fx_mul_spec(
        row.z as int,
        p.z as int,
    ) + t
}

/// The point `p` carried through the affine transform `m`, per axis.
pub open spec fn apply_x_spec(m: ModelMatrix, p: Vector3) -> int {
    apply_row_spec(m.linear.r0, m.translation.x as int, p)
}

pub open spec fn apply_y_spec(m: ModelMatrix, p: Vector3) -> int {
    apply_row_spec(m.linear.r1, m.translation.y as int, p)
}

pub open spec fn apply_z_spec(m: ModelMatrix, p: Vector3) -> int {
    apply_row_spec(m.linear.r2, m.translation.z as int, p)
}

/// The point `p` carried through the affine transform `m`.  Meaningful when
/// `model_ok(m)` and `vec_fx_ok(p)` hold, which keep every axis in range.
pub open spec fn apply_spec(m: ModelMatrix, p: Vector3) -> Vector3 {
    Vector3 {
        x: apply_x_spec(m, p) as i64,
        y: apply_y_spec(m, p) as i64,
        z: apply_z_spec(m, p) as i64,
    }
}

/// Each axis of an in-bounds application stays well inside `i64`.
pub proof fn lemma_apply_in_range(m: ModelMatrix, p: Vector3)
    requires
        model_ok(m),
        vec_fx_ok(p),
    ensures
        -POS_LIMIT - 3 * FX_PROD_BOUND <= apply_x_spec(m, p) <= POS_LIMIT + 3 * FX_PROD_BOUND,
        -POS_LIMIT - 3 * FX_PROD_BOUND <= apply_y_spec(m, p) <= POS_LIMIT + 3 * FX_PROD_BOUND,
        -POS_LIMIT - 3 * FX_PROD_BOUND <= apply_z_spec(m, p) <= POS_LIMIT + 3 * FX_PROD_BOUND,
        apply_spec(m, p).x == apply_x_spec(m, p),
        apply_spec(m, p).y == apply_y_spec(m, p),
        apply_spec(m, p).z == apply_z_spec(m, p),
{
    lemma_row_in_range(m.linear.r0, m.translation.x as int, p);
    lemma_row_in_range(m.linear.r1, m.translation.y as int, p);
    lemma_row_in_range(m.linear.r2, m.translation.z as int, p);
}

proof fn lemma_row_in_range(row: Vector3, t: int, p: Vector3)
    requires
        vec_fx_ok(row),
        vec_fx_ok(p),
        -POS_LIMIT <= t <= POS_LIMIT,
    ensures
        -POS_LIMIT - 3 * FX_PROD_BOUND <= apply_row_spec(row, t, p) <= POS_LIMIT + 3
            * FX_PROD_BOUND,
{
    lemma_fx_mul_prod_bound(row.x as int, p.x as int);
    lemma_fx_mul_prod_bound(row.y as int, p.y as int);
    lemma_fx_mul_prod_bound(row.z as int, p.z as int);
}

/// A fixed-point product of in-bounds operands stays within `FX_PROD_BOUND`.
pub proof fn lemma_fx_mul_prod_bound(a: int, b: int)
    requires
        -3_000_000_000 <= a <= 3_000_000_000,
        -3_000_000_000 <= b <= 3_000_000_000,
    ensures
        -FX_PROD_BOUND <= fx_mul_spec(a, b) <= FX_PROD_BOUND,
{
    let p = if a * b >= 0 { a * b } else { -(a * b) };
    assert(p <= 3_000_000_000 * 3_000_000_000) by (nonlinear_arith)
        requires
            -3_000_000_000 <= a <= 3_000_000_000,
            -3_000_000_000 <= b <= 3_000_000_000,
            p == if a * b >= 0 { a * b } else { -(a * b) },
    ;
    assert(p / 1_000_000 * 1_000_000 <= p && 0 <= p / 1_000_000) by (nonlinear_arith)
        requires
            p >= 0,
    ;
}

/// Exact matrix-vector application with translation.
pub fn apply_model(m: &ModelMatrix, p: Vector3) -> (r: Vector3)
    requires
        model_ok(*m),
        vec_fx_ok(p),
    ensures
        r == apply_spec(*m, p),
        r.x as int == apply_x_spec(*m, p),
        r.y as int == apply_y_spec(*m, p),
        r.z as int == apply_z_spec(*m, p),
{
    proof {
        lemma_apply_in_range(*m, p);
    }
    let x: i64 = fx_mul(m.linear.r0.x, p.x) + fx_mul(m.linear.r0.y, p.y) + fx_mul(
        m.linear.r0.z,
        p.z,
    ) + m.translation.x;
    let y: i64 = fx_mul(m.linear.r1.x, p.x) + fx_mul(m.linear.r1.y, p.y) + fx_mul(
        m.linear.r1.z,
        p.z,
    ) + m.translation.y;
    let z: i64 = fx_mul(m.linear.r2.x, p.x) + fx_mul(m.linear.r2.y, p.y) + fx_mul(
        m.linear.r2.z,
        p.z,
    ) + m.translation.z;
    Vector3 { x, y, z }
}

/// The empty bounding box: minima at the top of the range, maxima at the
/// bottom, so that the first vertex folded in replaces both.
pub open spec fn aabb_init_spec() -> BoundingBox {
    BoundingBox {
        min: Vector3 { x: i64::MAX, y: i64::MAX, z: i64::MAX },
        max: Vector3 { x: i64::MIN, y: i64::MIN, z: i64::MIN },
    }
}

/// The box `b` grown to cover the point `p`.
pub open spec fn aabb_extend_spec(b: BoundingBox, p: Vector3) -> BoundingBox {
    BoundingBox {
        min: Vector3 {
            x: if p.x < b.min.x { p.x } else { b.min.x },
            y: if p.y < b.min.y { p.y } else { b.min.y },
            z: if p.z < b.min.z { p.z } else { b.min.z },
        },
        max: Vector3 {
            x: if p.x > b.max.x { p.x } else { b.max.x },
            y: if p.y > b.max.y { p.y } else { b.max.y },
            z: if p.z > b.max.z { p.z } else { b.max.z },
        },
    }
}

/// The axis-aligned box of the given vertices carried through `m`.
pub open spec fn aabb_fold_spec(vs: Seq<Vertex>, m: ModelMatrix) -> BoundingBox
    decreases vs.len(),
{
    if vs.len() == 0 {
        aabb_init_spec()
    } else {
        aabb_extend_spec(aabb_fold_spec(vs.drop_last(), m), apply_spec(m, vs.last().position))
    }
}

/// Positions of the three vertices of the demo triangle: the centre is given
/// in [0, 1] screen coordinates and mapped to [-1, 1].
pub open spec fn triangle_vertices_spec(centre_x: i64, centre_y: i64, size: i64) -> Seq<Vertex> {
    let x = 2 * centre_x - FX_ONE;
    let y = 2 * centre_y - FX_ONE;
    seq![
        Vertex {
            position: Vector3 { x: x as i64, y: (y + size) as i64, z: 0 },
            color: Vector3 { x: FX_ONE, y: 0, z: 0 },
            should_wave: 1,
        },
        Vertex {
            position: Vector3 { x: (x - size) as i64, y: (y - size) as i64, z: 0 },
            color: Vector3 { x: 0, y: FX_ONE, z: 0 },
            should_wave: 1,
        },
        Vertex {
            position: Vector3 { x: (x + size) as i64, y: (y - size) as i64, z: 0 },
            color: Vector3 { x: 0, y: 0, z: FX_ONE },
            should_wave: 1,
        },
    ]
}

/// The demo triangle: one red, one green and one blue corner, all waving.
pub fn get_triangle(centre_x: i64, centre_y: i64, size: i64) -> (r: Vec<Vertex>)
    requires
        fx_ok(centre_x),
        fx_ok(centre_y),
        fx_ok(size),
    ensures
        r@ == triangle_vertices_spec(centre_x, centre_y, size),
{
    let x: i64 = 2 * centre_x - FX_ONE;
    let y: i64 = 2 * centre_y - FX_ONE;
    let mut r: Vec<Vertex> = Vec::new();
    r.push(
        Vertex {
            position: Vector3 { x, y: y + size, z: 0 },
            color: Vector3 { x: FX_ONE, y: 0, z: 0 },
            should_wave: 1,
        },
    );
    r.push(
        Vertex {
            position: Vector3 { x: x - size, y: y - size, z: 0 },
            color: Vector3 { x: 0, y: FX_ONE, z: 0 },
            should_wave: 1,
        },
    );
    r.push(
        Vertex {
            position: Vector3 { x: x + size, y: y - size, z: 0 },
            color: Vector3 { x: 0, y: 0, z: FX_ONE },
            should_wave: 1,
        },
    );
    proof {
        assert(r@ =~= triangle_vertices_spec(centre_x, centre_y, size));
    }
    r
}

/// A corner of a built-in mesh: a tenth of a unit out on each axis.
pub const DECI: i64 = 100_000;

pub open spec fn quad_vertex(x: int, y: int, z: int, cr: int, cg: int, cb: int) -> Vertex {
    Vertex {
        position: Vector3 { x: x as i64, y: y as i64, z: z as i64 },
        color: Vector3 { x: cr as i64, y: cg as i64, z: cb as i64 },
        should_wave: 0,
    }
}

/// The four corners of the flat ground quad.
pub open spec fn ground_quad_vertices_spec() -> Seq<Vertex> {
    seq![
        quad_vertex((-DECI as int), 0, (-DECI as int), (FX_ONE as int), 0, 0),
        quad_vertex((DECI as int), 0, (-DECI as int), 0, (FX_ONE as int), 0),
        quad_vertex((DECI as int), 0, (DECI as int), 0, 0, (FX_ONE as int)),
        quad_vertex((-DECI as int), 0, (DECI as int), (FX_ONE as int), (FX_ONE as int), 0),
    ]
}

/// Two triangles covering the quad.
pub open spec fn ground_quad_indices_spec() -> Seq<u16> {
    seq![0u16, 1u16, 2u16, 2u16, 3u16, 0u16]
}

/// A flat quad in the ground plane.
pub fn get_ground_quad() -> (r: (Vec<Vertex>, Vec<u16>))
    ensures
        r.0@ == ground_quad_vertices_spec(),
        r.1@ == ground_quad_indices_spec(),
{
    let mut vertices: Vec<Vertex> = Vec::new();
    let mut indices: Vec<u16> = Vec::new();
    vertices.push(make_quad_vertex(-DECI, 0, -DECI, FX_ONE, 0, 0));
    vertices.push(make_quad_vertex(DECI, 0, -DECI, 0, FX_ONE, 0));
    vertices.push(make_quad_vertex(DECI, 0, DECI, 0, 0, FX_ONE));
    vertices.push(make_quad_vertex(-DECI, 0, DECI, FX_ONE, FX_ONE, 0));
    indices.push(0);
    indices.push(1);
    indices.push(2);
    indices.push(2);
    indices.push(3);
    indices.push(0);
    proof {
        assert(vertices@ =~= ground_quad_vertices_spec());
        assert(indices@ =~= ground_quad_indices_spec());
    }
    (vertices, indices)
}

fn make_quad_vertex(x: i64, y: i64, z: i64, cr: i64, cg: i64, cb: i64) -> (v: Vertex)
    ensures
        v == quad_vertex(x as int, y as int, z as int, cr as int, cg as int, cb as int),
{
    Vertex {
        position: Vector3 { x, y, z },
        color: Vector3 { x: cr, y: cg, z: cb },
        should_wave: 0,
    }
}

/// The twenty-four corners of the cube, four per face, coloured per corner.
pub open spec fn cube_vertices_spec() -> Seq<Vertex> {
    seq![
        // front
        quad_vertex((-DECI as int), (-DECI as int), (-DECI as int), (FX_ONE as int), 0, 0),
        quad_vertex((DECI as int), (-DECI as int), (-DECI as int), 0, (FX_ONE as int), 0),
        quad_vertex((DECI as int), (DECI as int), (-DECI as int), 0, 0, (FX_ONE as int)),
        quad_vertex((-DECI as int), (DECI as int), (-DECI as int), (FX_ONE as int), (FX_ONE as int), 0),
        // back
        quad_vertex((-DECI as int), (-DECI as int), (DECI as int), (FX_ONE as int), 0, 0),
        quad_vertex((DECI as int), (-DECI as int), (DECI as int), 0, (FX_ONE as int), 0),
        quad_vertex((DECI as int), (DECI as int), (DECI as int), 0, 0, (FX_ONE as int)),
        quad_vertex((-DECI as int), (DECI as int), (DECI as int), (FX_ONE as int), (FX_ONE as int), 0),
        // top
        quad_vertex((-DECI as int), (DECI as int), (-DECI as int), (FX_ONE as int), 0, 0),
        quad_vertex((DECI as int), (DECI as int), (-DECI as int), 0, (FX_ONE as int), 0),
        quad_vertex((DECI as int), (DECI as int), (DECI as int), 0, 0, (FX_ONE as int)),
        quad_vertex((-DECI as int), (DECI as int), (DECI as int), (FX_ONE as int), (FX_ONE as int), 0),
        // bottom
        quad_vertex((-DECI as int), (-DECI as int), (-DECI as int), (FX_ONE as int), 0, 0),
        quad_vertex((DECI as int), (-DECI as int), (-DECI as int), 0, (FX_ONE as int), 0),
        quad_vertex((DECI as int), (-DECI as int), (DECI as int), 0, 0, (FX_ONE as int)),
        quad_vertex((-DECI as int), (-DECI as int), (DECI as int), (FX_ONE as int), (FX_ONE as int), 0),
        // left
        quad_vertex((-DECI as int), (-DECI as int), (-DECI as int), (FX_ONE as int), 0, 0),
        quad_vertex((-DECI as int), (-DECI as int), (DECI as int), 0, (FX_ONE as int), 0),
        quad_vertex((-DECI as int), (DECI as int), (DECI as int), 0, 0, (FX_ONE as int)),
        quad_vertex((-DECI as int), (DECI as int), (-DECI as int), (FX_ONE as int), (FX_ONE as int), 0),
        // right
        quad_vertex((DECI as int), (-DECI as int), (-DECI as int), (FX_ONE as int), 0, 0),
        quad_vertex((DECI as int), (-DECI as int), (DECI as int), 0, (FX_ONE as int), 0),
        quad_vertex((DECI as int), (DECI as int), (DECI as int), 0, 0, (FX_ONE as int)),
        quad_vertex((DECI as int), (DECI as int), (-DECI as int), (FX_ONE as int), (FX_ONE as int), 0),
    ]
}

/// Six faces of two triangles each.
pub open spec fn cube_indices_spec() -> Seq<u16> {
    seq![
        0u16, 1u16, 2u16, 2u16, 3u16, 0u16, 4u16, 5u16, 6u16, 6u16, 7u16, 4u16, 8u16, 9u16, 10u16,
        10u16, 11u16, 8u16, 12u16, 13u16, 14u16, 14u16, 15u16, 12u16, 16u16, 17u16, 18u16, 18u16,
        19u16, 16u16, 20u16, 21u16, 22u16, 22u16, 23u16, 20u16,
    ]
}

/// A cube two tenths of a unit on a side, centred at the origin.
pub fn get_cube() -> (r: (Vec<Vertex>, Vec<u16>))
    ensures
        r.0@ == cube_vertices_spec(),
        r.1@ == cube_indices_spec(),
{
    let mut vertices: Vec<Vertex> = Vec::new();
    // front
    vertices.push(make_quad_vertex(-DECI, -DECI, -DECI, FX_ONE, 0, 0));
    vertices.push(make_quad_vertex(DECI, -DECI, -DECI, 0, FX_ONE, 0));
    vertices.push(make_quad_vertex(DECI, DECI, -DECI, 0, 0, FX_ONE));
    vertices.push(make_quad_vertex(-DECI, DECI, -DECI, FX_ONE, FX_ONE, 0));
    // back
    vertices.push(make_quad_vertex(-DECI, -DECI, DECI, FX_ONE, 0, 0));
    vertices.push(make_quad_vertex(DECI, -DECI, DECI, 0, FX_ONE, 0));
    vertices.push(make_quad_vertex(DECI, DECI, DECI, 0, 0, FX_ONE));
    vertices.push(make_quad_vertex(-DECI, DECI, DECI, FX_ONE, FX_ONE, 0));
    // top
    vertices.push(make_quad_vertex(-DECI, DECI, -DECI, FX_ONE, 0, 0));
    vertices.push(make_quad_vertex(DECI, DECI, -DECI, 0, FX_ONE, 0));
    vertices.push(make_quad_vertex(DECI, DECI, DECI, 0, 0, FX_ONE));
    vertices.push(make_quad_vertex(-DECI, DECI, DECI, FX_ONE, FX_ONE, 0));
    // bottom
    vertices.push(make_quad_vertex(-DECI, -DECI, -DECI, FX_ONE, 0, 0));
    vertices.push(make_quad_vertex(DECI, -DECI, -DECI, 0, FX_ONE, 0));
    vertices.push(make_quad_vertex(DECI, -DECI, DECI, 0, 0, FX_ONE));
    vertices.push(make_quad_vertex(-DECI, -DECI, DECI, FX_ONE, FX_ONE, 0));
    // left
    vertices.push(make_quad_vertex(-DECI, -DECI, -DECI, FX_ONE, 0, 0));
    vertices.push(make_quad_vertex(-DECI, -DECI, DECI, 0, FX_ONE, 0));
    vertices.push(make_quad_vertex(-DECI, DECI, DECI, 0, 0, FX_ONE));
    vertices.push(make_quad_vertex(-DECI, DECI, -DECI, FX_ONE, FX_ONE, 0));
    // right
    vertices.push(make_quad_vertex(DECI, -DECI, -DECI, FX_ONE, 0, 0));
    vertices.push(make_quad_vertex(DECI, -DECI, DECI, 0, FX_ONE, 0));
    vertices.push(make_quad_vertex(DECI, DECI, DECI, 0, 0, FX_ONE));
    vertices.push(make_quad_vertex(DECI, DECI, -DECI, FX_ONE, FX_ONE, 0));
    let mut indices: Vec<u16> = Vec::new();
    let mut face: u16 = 0;
    while face < 6
        invariant
            face <= 6,
            indices@.len() == 6 * face,
            forall|k: int|
                0 <= k < indices@.len() ==> indices@[k] == cube_indices_spec()[k],
        decreases 6 - face,
    {
        let base: u16 = face * 4;
        indices.push(base);
        indices.push(base + 1);
        indices.push(base + 2);
        indices.push(base + 2);
        indices.push(base + 3);
        indices.push(base);
        proof {
            assert(forall|k: int|
                0 <= k < 36 ==> cube_indices_spec()[k] == seq![
                    0u16, 1u16, 2u16, 2u16, 3u16, 0u16, 4u16, 5u16, 6u16, 6u16, 7u16, 4u16, 8u16,
                    9u16, 10u16, 10u16, 11u16, 8u16, 12u16, 13u16, 14u16, 14u16, 15u16, 12u16,
                    16u16, 17u16, 18u16, 18u16, 19u16, 16u16, 20u16, 21u16, 22u16, 22u16, 23u16,
                    20u16,
                ][k]);
        }
        face = face + 1;
    }
    proof {
        assert(vertices@ =~= cube_vertices_spec());
        assert(indices@ =~= cube_indices_spec());
    }
    (vertices, indices)
}

} // verus!
