//! The closed set of component kinds, and the data record of each kind.
//!
//! A component is plain data attached to one entity.  The set of kinds is
//! fixed, so components are stored as one tagged variant per kind and
//! behaviour is dispatched by exhaustive match.

use vstd::prelude::*;

use crate::fixed::{fx_mul, fx_mul_spec, fx_ok};
use crate::geometry::{
    apply_spec, mat3_identity, mat3_identity_spec, mat_fx_ok, model_ok, rot_ok, vec_fx_ok,
    vec_pos_ok, BoundingBox, Mat3, ModelMatrix, Vector3, Vertex,
};

verus! {

/// The tag of a component kind.
#[derive(Clone, Copy, Debug, PartialEq, Eq, Structural)]
pub enum ComponentType {
    Mesh,
    Transform,
    Movement,
    Collider,
}

/// Geometry owned by an entity, with the renderer's buffer handles once the
/// payload has been uploaded, and a dirty flag asking for a re-upload.
pub struct MeshComponent {
    pub last_vertices: Option<Vec<Vertex>>,
    pub last_indices: Option<Vec<u16>>,
    pub vertex_buffer: Option<u64>,
    pub index_buffer: Option<u64>,
    pub needs_rebuffer: bool,
    pub num_indices: u32,
}

impl MeshComponent {
    /// A fresh mesh holding the given payload, not yet uploaded.
    pub fn new(vertices: Vec<Vertex>, indices: Vec<u16>) -> (m: MeshComponent)
        ensures
            m.last_vertices == Some(vertices),
            m.last_indices == Some(indices),
            m.vertex_buffer is None,
            m.index_buffer is None,
            m.needs_rebuffer,
            m.num_indices == 0,
    {
        MeshComponent {
            last_vertices: Some(vertices),
            last_indices: Some(indices),
            vertex_buffer: None,
            index_buffer: None,
            needs_rebuffer: true,
            num_indices: 0,
        }
    }

    /// Replace the payload and ask for a re-upload.
    pub fn update(&mut self, vertices: Vec<Vertex>, indices: Vec<u16>)
        ensures
            *final(self) == (MeshComponent {
                last_vertices: Some(vertices),
                last_indices: Some(indices),
                needs_rebuffer: true,
                ..*old(self)
            }),
    {
        self.last_vertices = Some(vertices);
        self.last_indices = Some(indices);
        self.needs_rebuffer = true;
    }
}

/// The derived model matrix: each linear entry is the rotation entry scaled
/// by the scale factor of its column, and the translation is the position.
pub open spec fn model_spec(position: Vector3, rotation_matrix: Mat3, scale: Vector3) -> ModelMatrix {
    ModelMatrix {
        linear: Mat3 {
            r0: scaled_row_spec(rotation_matrix.r0, scale),
            r1: scaled_row_spec(rotation_matrix.r1, scale),
            r2: scaled_row_spec(rotation_matrix.r2, scale),
        },
        translation: position,
    }
}

/// One row of the rotation matrix scaled column-wise.
pub open spec fn scaled_row_spec(row: Vector3, scale: Vector3) -> Vector3 {
    Vector3 {
        x: fx_mul_spec(row.x as int, scale.x as int) as i64,
        y: fx_mul_spec(row.y as int, scale.y as int) as i64,
        z: fx_mul_spec(row.z as int, scale.z as int) as i64,
    }
}

/// Position, rotation and scale of an entity, with the derived model matrix.
///
/// The rotation is carried twice: as the recorded Euler angles, which the
/// engine itself never interprets, and as the rotation matrix used by the
/// derived model matrix.  Turning angles into a matrix is trigonometry, a
/// floating-point concern of the host; the host installs the matrix through
/// `set_rotation_matrix`, and a fresh transform starts from the identity.
#[derive(Clone, Copy, Debug, PartialEq, Eq, Structural)]
pub struct TransformComponent {
    pub position: Vector3,
    pub rotation: Vector3,
    pub scale: Vector3,
    pub rotation_matrix: Mat3,
    pub model_matrix: ModelMatrix,
}

impl TransformComponent {
    /// The stored model matrix is the one derived from the stored fields.
    pub open spec fn matrix_coherent(&self) -> bool {
        self.model_matrix == model_spec(self.position, self.rotation_matrix, self.scale)
    }

    /// The fields are small enough for the matrix to be derived exactly.
    pub open spec fn fields_ok(&self) -> bool {
        vec_pos_ok(self.position) && mat_fx_ok(self.rotation_matrix) && vec_fx_ok(self.scale)
    }

    pub fn new(position: Vector3, rotation: Vector3, scale: Vector3) -> (t: TransformComponent)
        requires
            vec_pos_ok(position),
            vec_fx_ok(scale),
        ensures
            t.position == position,
            t.rotation == rotation,
            t.scale == scale,
            t.rotation_matrix == mat3_identity_spec(),
            t.matrix_coherent(),
    {
        let mut t = TransformComponent {
            position,
            rotation,
            scale,
            rotation_matrix: mat3_identity(),
            model_matrix: ModelMatrix {
                linear: mat3_identity(),
                translation: position,
            },
        };
        t.update_model_matrix();
        t
    }

    /// Recompute the model matrix from the current fields.
    pub fn update_model_matrix(&mut self)
        requires
            old(self).fields_ok(),
        ensures
            *final(self) == (TransformComponent {
                model_matrix: model_spec(
                    old(self).position,
                    old(self).rotation_matrix,
                    old(self).scale,
                ),
                ..*old(self)
            }),
    {
        self.model_matrix = ModelMatrix {
            linear: Mat3 {
                r0: scaled_row(self.rotation_matrix.r0, self.scale),
                r1: scaled_row(self.rotation_matrix.r1, self.scale),
                r2: scaled_row(self.rotation_matrix.r2, self.scale),
            },
            translation: self.position,
        };
    }

    /// Move the position by the given offset and rederive the matrix.
    pub fn translate(&mut self, translation: Vector3)
        requires
            old(self).fields_ok(),
            vec_pos_ok(translation),
            vec_pos_ok(translated_spec(old(self).position, translation)),
        ensures
            *final(self) == (TransformComponent {
                position: translated_spec(old(self).position, translation),
                model_matrix: model_spec(
                    translated_spec(old(self).position, translation),
                    old(self).rotation_matrix,
                    old(self).scale,
                ),
                ..*old(self)
            }),
    {
        self.position = Vector3 {
            x: self.position.x + translation.x,
            y: self.position.y + translation.y,
            z: self.position.z + translation.z,
        };
        self.update_model_matrix();
    }

    /// Add to the recorded Euler angles; the rotation matrix itself changes
    /// only through `set_rotation_matrix`.
    pub fn rotate(&mut self, rotation: Vector3)
        requires
            old(self).fields_ok(),
            vec_pos_ok(old(self).rotation),
            vec_pos_ok(rotation),
        ensures
            *final(self) == (TransformComponent {
                rotation: translated_spec(old(self).rotation, rotation),
                model_matrix: model_spec(
                    old(self).position,
                    old(self).rotation_matrix,
                    old(self).scale,
                ),
                ..*old(self)
            }),
    {
        self.rotation = Vector3 {
            x: self.rotation.x + rotation.x,
            y: self.rotation.y + rotation.y,
            z: self.rotation.z + rotation.z,
        };
        self.update_model_matrix();
    }

    /// Multiply the scale factors component-wise and rederive the matrix.
    pub fn scale(&mut self, factor: Vector3)
        requires
            old(self).fields_ok(),
            vec_fx_ok(factor),
            fx_ok(fx_mul_spec(old(self).scale.x as int, factor.x as int) as i64),
            fx_ok(fx_mul_spec(old(self).scale.y as int, factor.y as int) as i64),
            fx_ok(fx_mul_spec(old(self).scale.z as int, factor.z as int) as i64),
        ensures
            *final(self) == (TransformComponent {
                scale: scaled_row_spec(old(self).scale, factor),
                model_matrix: model_spec(
                    old(self).position,
                    old(self).rotation_matrix,
                    scaled_row_spec(old(self).scale, factor),
                ),
                ..*old(self)
            }),
    {
        self.scale = scaled_row(self.scale, factor);
        self.update_model_matrix();
    }

    pub fn set_position(&mut self, position: Vector3)
        requires
            old(self).fields_ok(),
            vec_pos_ok(position),
        ensures
            *final(self) == (TransformComponent {
                position,
                model_matrix: model_spec(position, old(self).rotation_matrix, old(self).scale),
                ..*old(self)
            }),
    {
        self.position = position;
        self.update_model_matrix();
    }

    /// Record new Euler angles; see `rotate`.
    pub fn set_rotation(&mut self, rotation: Vector3)
        requires
            old(self).fields_ok(),
        ensures
            *final(self) == (TransformComponent {
                rotation,
                model_matrix: model_spec(
                    old(self).position,
                    old(self).rotation_matrix,
                    old(self).scale,
                ),
                ..*old(self)
            }),
    {
        self.rotation = rotation;
        self.update_model_matrix();
    }

    pub fn set_scale(&mut self, scale: Vector3)
        requires
            old(self).fields_ok(),
            vec_fx_ok(scale),
        ensures
            *final(self) == (TransformComponent {
                scale,
                model_matrix: model_spec(old(self).position, old(self).rotation_matrix, scale),
                ..*old(self)
            }),
    {
        self.scale = scale;
        self.update_model_matrix();
    }

    /// Install the rotation matrix derived by the host from the recorded
    /// angles, and rederive the model matrix.
    pub fn set_rotation_matrix(&mut self, rotation_matrix: Mat3)
        requires
            old(self).fields_ok(),
            rot_ok(rotation_matrix),
        ensures
            *final(self) == (TransformComponent {
                rotation_matrix,
                model_matrix: model_spec(old(self).position, rotation_matrix, old(self).scale),
                ..*old(self)
            }),
    {
        self.rotation_matrix = rotation_matrix;
        self.update_model_matrix();
    }

    /// Carry a vertex position through the model matrix, keeping its colour.
    pub fn apply_to_vertex(&self, vertex: &Vertex) -> (r: Vertex)
        requires
            model_ok(self.model_matrix),
            vec_fx_ok(vertex.position),
        ensures
            r == (Vertex { position: apply_spec(self.model_matrix, vertex.position), ..*vertex }),
    {
        let p = crate::geometry::apply_model(&self.model_matrix, vertex.position);
        Vertex { position: p, ..*vertex }
    }
}

/// The sum of two vectors, per axis.
pub open spec fn translated_spec(p: Vector3, t: Vector3) -> Vector3 {
    Vector3 {
        x: (p.x + t.x) as i64,
        y: (p.y + t.y) as i64,
        z: (p.z + t.z) as i64,
    }
}

fn scaled_row(row: Vector3, scale: Vector3) -> (r: Vector3)
    requires
        vec_fx_ok(row),
        vec_fx_ok(scale),
    ensures
        r == scaled_row_spec(row, scale),
{
    Vector3 {
        x: fx_mul(row.x, scale.x),
        y: fx_mul(row.y, scale.y),
        z: fx_mul(row.z, scale.z),
    }
}

/// Velocity and acceleration of an entity, in units per second.
#[derive(Clone, Copy, Debug, PartialEq, Eq, Structural)]
pub struct MovementComponent {
    pub velocity: Vector3,
    pub acceleration: Vector3,
}

impl MovementComponent {
    pub fn new(velocity: Vector3, acceleration: Vector3) -> (m: MovementComponent)
        ensures
            m.velocity == velocity,
            m.acceleration == acceleration,
    {
        MovementComponent { velocity, acceleration }
    }
}

/// Bounding volumes of an entity, each with its own staleness flag.
#[derive(Clone, Copy, Debug, PartialEq, Eq, Structural)]
pub struct ColliderComponent {
    pub aabb: Option<BoundingBox>,
    pub obb: Option<BoundingBox>,
    pub needs_aabb_update: bool,
    pub needs_obb_update: bool,
}

impl ColliderComponent {
    /// A fresh collider with no bounds computed yet.
    pub fn new() -> (c: ColliderComponent)
        ensures
            c.aabb is None,
            c.obb is None,
            c.needs_aabb_update,
            c.needs_obb_update,
    {
        ColliderComponent {
            aabb: None,
            obb: None,
            needs_aabb_update: true,
            needs_obb_update: true,
        }
    }

    /// Mark both bounding volumes stale.
    pub fn invalidate_bounds(&mut self)
        ensures
            *final(self) == (ColliderComponent {
                needs_aabb_update: true,
                needs_obb_update: true,
                ..*old(self)
            }),
    {
        self.needs_aabb_update = true;
        self.needs_obb_update = true;
    }
}

/// A component of any kind: the closed tagged variant stored per entity.
pub enum ComponentTypes {
    Mesh(MeshComponent),
    Transform(TransformComponent),
    Movement(MovementComponent),
    Collider(ColliderComponent),
}

/// The kind tag of a component.
pub open spec fn kind_of(c: ComponentTypes) -> ComponentType {
    match c {
        ComponentTypes::Mesh(_) => ComponentType::Mesh,
        ComponentTypes::Transform(_) => ComponentType::Transform,
        ComponentTypes::Movement(_) => ComponentType::Movement,
        ComponentTypes::Collider(_) => ComponentType::Collider,
    }
}

impl ComponentTypes {
    /// The kind tag of this component.
    pub fn component_type(&self) -> (t: ComponentType)
        ensures
            t == kind_of(*self),
    {
        match self {
            ComponentTypes::Mesh(_) => ComponentType::Mesh,
            ComponentTypes::Transform(_) => ComponentType::Transform,
            ComponentTypes::Movement(_) => ComponentType::Movement,
            ComponentTypes::Collider(_) => ComponentType::Collider,
        }
    }
}

} // verus!
