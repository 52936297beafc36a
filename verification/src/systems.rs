//! The built-in systems: one unit of per-frame behaviour each.
//!
//! Every system walks the registered entities once and rewrites the
//! components it is responsible for.  A value that is out of range for the
//! exact fixed-point arithmetic makes the system skip that entity for the
//! frame rather than fail it: invariant violations degrade to a no-op.

use vstd::prelude::*;

use crate::components::{
    model_spec, translated_spec, ColliderComponent, ComponentType, ComponentTypes, MeshComponent,
    MovementComponent, TransformComponent,
};
use crate::fixed::{fx_mul, fx_mul_spec, FX_BOUND, POS_LIMIT};
use crate::geometry::{vec_fx_ok, vec_pos_ok, Vector3};
use crate::render::Renderer;
use crate::world::{EntityId, World};

verus! {

/// Recomputes every transform's model matrix from its fields.
#[derive(Clone, Copy, Debug, PartialEq, Eq, Structural)]
pub struct TransformSystem {}

/// Integrates movement into transforms: explicit Euler on position with the
/// pre-update velocity, then velocity update from acceleration.
#[derive(Clone, Copy, Debug, PartialEq, Eq, Structural)]
pub struct MovementSystem {}

/// Recomputes stale axis-aligned bounds from mesh and transform.
#[derive(Clone, Copy, Debug, PartialEq, Eq, Structural)]
pub struct CollisionSystem {}

/// Uploads mesh payloads that are marked for (re)buffering.
#[derive(Clone, Copy, Debug, PartialEq, Eq, Structural)]
pub struct MeshBufferer {}

/// Issues one draw call per buffered mesh with a transform.
#[derive(Clone, Copy, Debug, PartialEq, Eq, Structural)]
pub struct MeshRenderer {}

/// A registered system: the closed set of behaviours a world can run.
#[derive(Clone, Copy, Debug, PartialEq, Eq, Structural)]
pub enum SystemKind {
    TransformUpdate(TransformSystem),
    Movement(MovementSystem),
    Collision(CollisionSystem),
    MeshBuffer(MeshBufferer),
    MeshDraw(MeshRenderer),
}

/// The transform inside a stored component, if that is what it is.
pub open spec fn transform_in(c: Option<ComponentTypes>) -> Option<TransformComponent> {
    match c {
        Some(ComponentTypes::Transform(t)) => Some(t),
        _ => None,
    }
}

/// The movement record inside a stored component, if that is what it is.
pub open spec fn movement_in(c: Option<ComponentTypes>) -> Option<MovementComponent> {
    match c {
        Some(ComponentTypes::Movement(m)) => Some(m),
        _ => None,
    }
}

/// The mesh inside a stored component, if that is what it is.
pub open spec fn mesh_in(c: Option<ComponentTypes>) -> Option<MeshComponent> {
    match c {
        Some(ComponentTypes::Mesh(m)) => Some(m),
        _ => None,
    }
}

/// The collider inside a stored component, if that is what it is.
pub open spec fn collider_in(c: Option<ComponentTypes>) -> Option<ColliderComponent> {
    match c {
        Some(ComponentTypes::Collider(c)) => Some(c),
        _ => None,
    }
}

/// A copy of the transform owned by `e`, if any.
pub fn get_transform(world: &World, e: EntityId) -> (r: Option<TransformComponent>)
    requires
        world.wf(),
    ensures
        r == transform_in(world.get_spec(e, ComponentType::Transform)),
{
    match world.get(e, ComponentType::Transform) {
        Some(c) => match c {
            ComponentTypes::Transform(t) => Some(*t),
            _ => None,
        },
        None => None,
    }
}

/// A copy of the movement record owned by `e`, if any.
pub fn get_movement(world: &World, e: EntityId) -> (r: Option<MovementComponent>)
    requires
        world.wf(),
    ensures
        r == movement_in(world.get_spec(e, ComponentType::Movement)),
{
    match world.get(e, ComponentType::Movement) {
        Some(c) => match c {
            ComponentTypes::Movement(m) => Some(*m),
            _ => None,
        },
        None => None,
    }
}

/// A copy of the collider owned by `e`, if any.
pub fn get_collider(world: &World, e: EntityId) -> (r: Option<ColliderComponent>)
    requires
        world.wf(),
    ensures
        r == collider_in(world.get_spec(e, ComponentType::Collider)),
{
    match world.get(e, ComponentType::Collider) {
        Some(c) => match c {
            ComponentTypes::Collider(cc) => Some(*cc),
            _ => None,
        },
        None => None,
    }
}

/// The velocity scaled by the frame delta, per axis.
pub open spec fn vel_delta_spec(v: Vector3, dt: i64) -> Vector3 {
    Vector3 {
        x: fx_mul_spec(v.x as int, dt as int) as i64,
        y: fx_mul_spec(v.y as int, dt as int) as i64,
        z: fx_mul_spec(v.z as int, dt as int) as i64,
    }
}

/// The movement step applies to this transform and movement record: every
/// value is in range for exact arithmetic, the delta included.
pub open spec fn movement_ready(t: TransformComponent, m: MovementComponent, dt: i64) -> bool {
    &&& t.fields_ok()
    &&& vec_fx_ok(m.velocity)
    &&& vec_fx_ok(m.acceleration)
    &&& 0 <= dt <= FX_BOUND
    &&& vec_pos_ok(translated_spec(t.position, vel_delta_spec(m.velocity, dt)))
}

/// The transform after one movement step: translated by velocity times
/// delta, with the model matrix rederived.
pub open spec fn moved_transform(t: TransformComponent, m: MovementComponent, dt: i64) -> TransformComponent {
    let p = translated_spec(t.position, vel_delta_spec(m.velocity, dt));
    TransformComponent {
        position: p,
        model_matrix: model_spec(p, t.rotation_matrix, t.scale),
        ..t
    }
}

/// The movement record after one step: velocity integrated from
/// acceleration, after the position update used the old velocity.
pub open spec fn moved_movement(m: MovementComponent, dt: i64) -> MovementComponent {
    MovementComponent {
        velocity: translated_spec(m.velocity, vel_delta_spec(m.acceleration, dt)),
        acceleration: m.acceleration,
    }
}

/// The collider with both bounds marked stale.
pub open spec fn invalidated(c: ColliderComponent) -> ColliderComponent {
    ColliderComponent { needs_aabb_update: true, needs_obb_update: true, ..c }
}

/// Whether the movement system acts on `e` this frame.
pub open spec fn movement_applies(w: World, e: EntityId) -> bool {
    &&& w.registered(e)
    &&& match (
        transform_in(w.get_spec(e, ComponentType::Transform)),
        movement_in(w.get_spec(e, ComponentType::Movement)),
    ) {
        (Some(t), Some(m)) => movement_ready(t, m, w.state_spec().delta_time),
        _ => false,
    }
}

/// What one movement pass leaves of entity `e`: the exact update where the
/// step applies, and the entity's components untouched where it does not.
pub open spec fn movement_entity_post(w0: World, w1: World, e: EntityId) -> bool {
    if movement_applies(w0, e) {
        let t = transform_in(w0.get_spec(e, ComponentType::Transform)).unwrap();
        let m = movement_in(w0.get_spec(e, ComponentType::Movement)).unwrap();
        let dt = w0.state_spec().delta_time;
        &&& w1.get_spec(e, ComponentType::Transform) == Some(
            ComponentTypes::Transform(moved_transform(t, m, dt)),
        )
        &&& w1.get_spec(e, ComponentType::Movement) == Some(
            ComponentTypes::Movement(moved_movement(m, dt)),
        )
        &&& w1.get_spec(e, ComponentType::Mesh) == w0.get_spec(e, ComponentType::Mesh)
        &&& w1.get_spec(e, ComponentType::Collider) == (match collider_in(
            w0.get_spec(e, ComponentType::Collider),
        ) {
            Some(c) => Some(ComponentTypes::Collider(invalidated(c))),
            None => None,
        })
    } else {
        w1.storage_spec().comps(e) == w0.storage_spec().comps(e)
    }
}

/// Everything a system pass leaves alone: the entity list, the system
/// lists, the clock and the counters.
pub open spec fn frame_fields_unchanged(w0: World, w1: World) -> bool {
    &&& w1.entities_spec() == w0.entities_spec()
    &&& w1.update_systems_spec() == w0.update_systems_spec()
    &&& w1.draw_systems_spec() == w0.draw_systems_spec()
    &&& w1.state_spec() == w0.state_spec()
    &&& w1.next_id_spec() == w0.next_id_spec()
}

/// What one movement pass does to the world.
pub open spec fn movement_post(w0: World, w1: World) -> bool {
    &&& frame_fields_unchanged(w0, w1)
    &&& w1.next_handle_spec() == w0.next_handle_spec()
    &&& forall|e: EntityId| #[trigger] movement_entity_post(w0, w1, e)
    &&& forall|e: EntityId|
        w1.storage_spec().has_entity(e) == w0.storage_spec().has_entity(e)
}

/// Whether `movement_ready` holds, decided exactly.
fn check_movement_ready(t: &TransformComponent, m: &MovementComponent, dt: i64) -> (b: bool)
    ensures
        b == movement_ready(*t, *m, dt),
{
    if !(-POS_LIMIT <= t.position.x && t.position.x <= POS_LIMIT && -POS_LIMIT <= t.position.y
        && t.position.y <= POS_LIMIT && -POS_LIMIT <= t.position.z && t.position.z <= POS_LIMIT) {
        return false;
    }
    if !(check_vec_fx_ok(&t.rotation_matrix.r0) && check_vec_fx_ok(&t.rotation_matrix.r1)
        && check_vec_fx_ok(&t.rotation_matrix.r2) && check_vec_fx_ok(&t.scale)) {
        return false;
    }
    if !(check_vec_fx_ok(&m.velocity) && check_vec_fx_ok(&m.acceleration)) {
        return false;
    }
    if !(0 <= dt && dt <= FX_BOUND) {
        return false;
    }
    let dx: i64 = t.position.x + fx_mul(m.velocity.x, dt);
    let dy: i64 = t.position.y + fx_mul(m.velocity.y, dt);
    let dz: i64 = t.position.z + fx_mul(m.velocity.z, dt);
    -POS_LIMIT <= dx && dx <= POS_LIMIT && -POS_LIMIT <= dy && dy <= POS_LIMIT && -POS_LIMIT <= dz
        && dz <= POS_LIMIT
}

/// Whether every component of the vector is a valid multiplication operand.
fn check_vec_fx_ok(v: &Vector3) -> (b: bool)
    ensures
        b == vec_fx_ok(*v),
{
    -FX_BOUND <= v.x && v.x <= FX_BOUND && -FX_BOUND <= v.y && v.y <= FX_BOUND && -FX_BOUND <= v.z
        && v.z <= FX_BOUND
}

impl MovementSystem {
    /// One movement pass: for every entity with a transform and a movement
    /// record whose values are in range, translate the position by velocity
    /// times delta, mark any collider stale, then integrate the velocity.
    pub fn run<R: Renderer>(&self, world: &mut World, renderer: &mut R)
        requires
            old(world).wf(),
        ensures
            final(world).wf(),
            movement_post(*old(world), *final(world)),
            *final(renderer) == *old(renderer),
            final(renderer).uploads() == old(renderer).uploads(),
            final(renderer).draws() == old(renderer).draws(),
    {
        let ghost w0 = *old(world);
        let dt = world.frame_state().delta_time;
        let n = world.entities().len();
        let mut i: usize = 0;
        while i < n
            invariant
                world.wf(),
                n == w0.entities_spec().len(),
                i <= n,
                frame_fields_unchanged(w0, *world),
                world.next_handle_spec() == w0.next_handle_spec(),
                dt == w0.state_spec().delta_time,
                w0.wf(),
                forall|e: EntityId|
                    w0.registered(e) == world.registered(e),
                forall|e: EntityId|
                    world.storage_spec().has_entity(e) == w0.storage_spec().has_entity(e),
                forall|e: EntityId|
                    id_in_prefix(w0, i as int, e) ==> #[trigger] movement_entity_post(
                        w0,
                        *world,
                        e,
                    ),
                forall|e: EntityId|
                    !id_in_prefix(w0, i as int, e) ==> world.storage_spec().comps(e)
                        == w0.storage_spec().comps(e),
            decreases n - i,
        {
            let e = world.entities()[i].id;
            let ghost w_pre = *world;
            proof {
                w0.lemma_entity_unique(e, i as int);
                assert(!id_in_prefix(w0, i as int, e));
                assert(w_pre.storage_spec().comps(e) == w0.storage_spec().comps(e));
            }
            let t_opt = get_transform(world, e);
            let m_opt = get_movement(world, e);
            match (t_opt, m_opt) {
                (Some(t), Some(m)) => {
                    if check_movement_ready(&t, &m, dt) {
                        proof {
                            assert(movement_applies(w0, e));
                        }
                        let mut t2 = t;
                        let delta = Vector3 {
                            x: fx_mul(m.velocity.x, dt),
                            y: fx_mul(m.velocity.y, dt),
                            z: fx_mul(m.velocity.z, dt),
                        };
                        t2.translate(delta);
                        world.replace_component(e, ComponentTypes::Transform(t2));
                        match get_collider(world, e) {
                            Some(c) => {
                                let mut c2 = c;
                                c2.invalidate_bounds();
                                world.replace_component(e, ComponentTypes::Collider(c2));
                            },
                            None => {},
                        }
                        let m2 = MovementComponent {
                            velocity: Vector3 {
                                x: m.velocity.x + fx_mul(m.acceleration.x, dt),
                                y: m.velocity.y + fx_mul(m.acceleration.y, dt),
                                z: m.velocity.z + fx_mul(m.acceleration.z, dt),
                            },
                            acceleration: m.acceleration,
                        };
                        world.replace_component(e, ComponentTypes::Movement(m2));
                        proof {
                            assert(t2 == moved_transform(
                                transform_in(w0.get_spec(e, ComponentType::Transform)).unwrap(),
                                movement_in(w0.get_spec(e, ComponentType::Movement)).unwrap(),
                                dt,
                            ));
                            assert(m2 == moved_movement(
                                movement_in(w0.get_spec(e, ComponentType::Movement)).unwrap(),
                                dt,
                            ));
                            assert(movement_entity_post(w0, *world, e));
                        }
                    } else {
                        proof {
                            assert(!movement_applies(w0, e));
                            assert(movement_entity_post(w0, *world, e));
                        }
                    }
                },
                _ => {
                    proof {
                        assert(!movement_applies(w0, e));
                        assert(movement_entity_post(w0, *world, e));
                    }
                },
            }
            proof {
                assert forall|e2: EntityId|
                    id_in_prefix(w0, i + 1, e2) implies #[trigger] movement_entity_post(
                    w0,
                    *world,
                    e2,
                ) by {
                    if e2 == e {
                    } else {
                        assert(id_in_prefix(w0, i as int, e2));
                        assert(movement_entity_post(w0, w_pre, e2));
                        assert(world.storage_spec().comps(e2) == w_pre.storage_spec().comps(e2));
                        lemma_entity_post_stable(w0, w_pre, *world, e2);
                    }
                }
                assert forall|e2: EntityId|
                    !id_in_prefix(w0, i + 1, e2) implies world.storage_spec().comps(e2)
                    == w0.storage_spec().comps(e2) by {
                    assert(!id_in_prefix(w0, i as int, e2));
                    assert(e2 != e);
                }
            }
            i = i + 1;
        }
        proof {
            assert forall|e: EntityId| #[trigger] movement_entity_post(w0, *world, e) by {
                if id_in_prefix(w0, n as int, e) {
                } else {
                    assert(world.storage_spec().comps(e) == w0.storage_spec().comps(e));
                    if movement_applies(w0, e) {
                        let j = choose|j: int|
                            0 <= j < w0.entities_spec().len() && w0.entities_spec()[j].id == e;
                        assert(id_in_prefix(w0, n as int, e));
                    }
                }
            }
        }
    }
}

/// Whether the mesh payload can be carried through the transform exactly:
/// vertices are present and every position is in multiplication range.
pub open spec fn mesh_coords_ok(m: MeshComponent) -> bool {
    &&& m.last_vertices is Some
    &&& forall|i: int|
        0 <= i < m.last_vertices.unwrap()@.len() ==> vec_fx_ok(
            #[trigger] m.last_vertices.unwrap()@[i].position,
        )
}

/// Whether the collision system recomputes the bounds of `e` this frame.
pub open spec fn collision_applies(w: World, e: EntityId) -> bool {
    &&& w.registered(e)
    &&& match (
        collider_in(w.get_spec(e, ComponentType::Collider)),
        transform_in(w.get_spec(e, ComponentType::Transform)),
        mesh_in(w.get_spec(e, ComponentType::Mesh)),
    ) {
        (Some(c), Some(t), Some(m)) => {
            &&& c.needs_aabb_update
            &&& crate::geometry::model_ok(t.model_matrix)
            &&& mesh_coords_ok(m)
        },
        _ => false,
    }
}

/// The collider after its axis-aligned bounds were recomputed.
pub open spec fn recomputed_collider(
    c: ColliderComponent,
    t: TransformComponent,
    m: MeshComponent,
) -> ColliderComponent {
    ColliderComponent {
        aabb: Some(
            crate::geometry::aabb_fold_spec(m.last_vertices.unwrap()@, t.model_matrix),
        ),
        needs_aabb_update: false,
        ..c
    }
}

/// What one collision pass leaves of entity `e`.
pub open spec fn collision_entity_post(w0: World, w1: World, e: EntityId) -> bool {
    if collision_applies(w0, e) {
        let c = collider_in(w0.get_spec(e, ComponentType::Collider)).unwrap();
        let t = transform_in(w0.get_spec(e, ComponentType::Transform)).unwrap();
        let m = mesh_in(w0.get_spec(e, ComponentType::Mesh)).unwrap();
        &&& w1.get_spec(e, ComponentType::Collider) == Some(
            ComponentTypes::Collider(recomputed_collider(c, t, m)),
        )
        &&& w1.get_spec(e, ComponentType::Transform) == w0.get_spec(e, ComponentType::Transform)
        &&& w1.get_spec(e, ComponentType::Movement) == w0.get_spec(e, ComponentType::Movement)
        &&& w1.get_spec(e, ComponentType::Mesh) == w0.get_spec(e, ComponentType::Mesh)
    } else {
        w1.storage_spec().comps(e) == w0.storage_spec().comps(e)
    }
}

/// What one collision pass does to the world.
pub open spec fn collision_post(w0: World, w1: World) -> bool {
    &&& frame_fields_unchanged(w0, w1)
    &&& w1.next_handle_spec() == w0.next_handle_spec()
    &&& forall|e: EntityId| #[trigger] collision_entity_post(w0, w1, e)
    &&& forall|e: EntityId|
        w1.storage_spec().has_entity(e) == w0.storage_spec().has_entity(e)
}

/// Whether every vertex position is in multiplication range.
fn check_mesh_coords(m: &MeshComponent) -> (b: bool)
    ensures
        b == mesh_coords_ok(*m),
{
    match &m.last_vertices {
        None => false,
        Some(vs) => {
            proof {
                assert(m.last_vertices == Some(*vs));
            }
            let mut i: usize = 0;
            while i < vs.len()
                invariant
                    m.last_vertices == Some(*vs),
                    i <= vs@.len(),
                    forall|j: int| 0 <= j < i ==> vec_fx_ok(#[trigger] vs@[j].position),
                decreases vs@.len() - i,
            {
                if !check_vec_fx_ok(&vs[i].position) {
                    proof {
                        assert(m.last_vertices.unwrap()@ == vs@);
                        assert(!vec_fx_ok(m.last_vertices.unwrap()@[i as int].position));
                    }
                    return false;
                }
                i = i + 1;
            }
            true
        },
    }
}

/// Whether the stored model matrix can be applied exactly.
fn check_model_ok(t: &TransformComponent) -> (b: bool)
    ensures
        b == crate::geometry::model_ok(t.model_matrix),
{
    check_vec_fx_ok(&t.model_matrix.linear.r0) && check_vec_fx_ok(&t.model_matrix.linear.r1)
        && check_vec_fx_ok(&t.model_matrix.linear.r2) && {
        let tr = &t.model_matrix.translation;
        -POS_LIMIT <= tr.x && tr.x <= POS_LIMIT && -POS_LIMIT <= tr.y && tr.y <= POS_LIMIT
            && -POS_LIMIT <= tr.z && tr.z <= POS_LIMIT
    }
}

impl CollisionSystem {
    /// The axis-aligned bounding box of the mesh with the transform's model
    /// matrix applied to every vertex: per-axis minima and maxima.
    pub fn calculate_aabb(
        mesh_component: &MeshComponent,
        transform_component: &TransformComponent,
    ) -> (r: crate::geometry::BoundingBox)
        requires
            mesh_coords_ok(*mesh_component),
            crate::geometry::model_ok(transform_component.model_matrix),
        ensures
            r == crate::geometry::aabb_fold_spec(
                mesh_component.last_vertices.unwrap()@,
                transform_component.model_matrix,
            ),
    {
        let vs: &Vec<crate::geometry::Vertex> = match &mesh_component.last_vertices {
            Some(vs) => vs,
            None => unreached(),
        };
        let mut b = crate::geometry::BoundingBox {
            min: Vector3 { x: i64::MAX, y: i64::MAX, z: i64::MAX },
            max: Vector3 { x: i64::MIN, y: i64::MIN, z: i64::MIN },
        };
        let mut i: usize = 0;
        while i < vs.len()
            invariant
                i <= vs@.len(),
                mesh_coords_ok(*mesh_component),
                crate::geometry::model_ok(transform_component.model_matrix),
                vs@ == mesh_component.last_vertices.unwrap()@,
                b == crate::geometry::aabb_fold_spec(
                    vs@.subrange(0, i as int),
                    transform_component.model_matrix,
                ),
            decreases vs@.len() - i,
        {
            let p = crate::geometry::apply_model(&transform_component.model_matrix, vs[i].position);
            b = crate::geometry::BoundingBox {
                min: Vector3 {
                    x: if p.x < b.min.x { p.x } else { b.min.x },
                    y: if p.y < b.min.y { p.y } else { b.min.y },
                    z: if p.z < b.min.z { p.z } else { b.min.z },
                },
                max: Vector3 {
                    x: if p.x > b.max.x { p.x } else { b.max.x },
                    y: if p.y > b.max.y { p.y } else { b.max.y },
                    z: if p.z > b.max.z { p.z } else { b.max.z },
                },
            };
            proof {
                let pre = vs@.subrange(0, i as int);
                let cur = vs@.subrange(0, i + 1);
                assert(cur.drop_last() =~= pre);
                assert(cur.last() == vs@[i as int]);
            }
            i = i + 1;
        }
        proof {
            assert(vs@.subrange(0, vs@.len() as int) =~= vs@);
        }
        b
    }

    /// Whether two axis-aligned boxes overlap on every axis.
    pub fn bounding_boxes_intersect(
        a: &crate::geometry::BoundingBox,
        b: &crate::geometry::BoundingBox,
    ) -> (r: bool)
        ensures
            r == boxes_intersect_spec(*a, *b),
    {
        !(a.max.x < b.min.x || a.min.x > b.max.x) && !(a.max.y < b.min.y || a.min.y > b.max.y) && !(
        a.max.z < b.min.z || a.min.z > b.max.z)
    }

    /// One collision pass: recompute the axis-aligned bounds of every
    /// entity whose collider asked for it and clear the flag.  Pairwise
    /// intersection testing is a design slot this pass does not fill.
    pub fn run<R: Renderer>(&self, world: &mut World, renderer: &mut R)
        requires
            old(world).wf(),
        ensures
            final(world).wf(),
            collision_post(*old(world), *final(world)),
            *final(renderer) == *old(renderer),
            final(renderer).uploads() == old(renderer).uploads(),
            final(renderer).draws() == old(renderer).draws(),
    {
        let ghost w0 = *old(world);
        let n = world.entities().len();
        let mut i: usize = 0;
        while i < n
            invariant
                world.wf(),
                n == w0.entities_spec().len(),
                i <= n,
                frame_fields_unchanged(w0, *world),
                world.next_handle_spec() == w0.next_handle_spec(),
                w0.wf(),
                forall|e: EntityId|
                    world.storage_spec().has_entity(e) == w0.storage_spec().has_entity(e),
                forall|e: EntityId|
                    id_in_prefix(w0, i as int, e) ==> #[trigger] collision_entity_post(
                        w0,
                        *world,
                        e,
                    ),
                forall|e: EntityId|
                    !id_in_prefix(w0, i as int, e) ==> world.storage_spec().comps(e)
                        == w0.storage_spec().comps(e),
            decreases n - i,
        {
            let e = world.entities()[i].id;
            let ghost w_pre = *world;
            proof {
                w0.lemma_entity_unique(e, i as int);
                assert(!id_in_prefix(w0, i as int, e));
            }
            let c_opt = get_collider(world, e);
            match c_opt {
                Some(c) => {
                    if c.needs_aabb_update {
                        let t_opt = get_transform(world, e);
                        match t_opt {
                            Some(t) => {
                                match world.get(e, ComponentType::Mesh) {
                                    Some(mc) => {
                                        let (coords_ok, model_ok_flag) = match mc {
                                            ComponentTypes::Mesh(mesh) => (
                                                check_mesh_coords(mesh),
                                                check_model_ok(&t),
                                            ),
                                            _ => (false, false),
                                        };
                                        if coords_ok && model_ok_flag {
                                            let aabb = match world.get(e, ComponentType::Mesh) {
                                                Some(ComponentTypes::Mesh(mesh)) => Some(
                                                    Self::calculate_aabb(mesh, &t),
                                                ),
                                                _ => None,
                                            };
                                            let c2 = ColliderComponent {
                                                aabb,
                                                needs_aabb_update: false,
                                                ..c
                                            };
                                            world.replace_component(
                                                e,
                                                ComponentTypes::Collider(c2),
                                            );
                                            proof {
                                                assert(collision_applies(w0, e));
                                                assert(collision_entity_post(w0, *world, e));
                                            }
                                        } else {
                                            proof {
                                                assert(!collision_applies(w0, e));
                                                assert(collision_entity_post(w0, *world, e));
                                            }
                                        }
                                    },
                                    None => {
                                        proof {
                                            assert(!collision_applies(w0, e));
                                            assert(collision_entity_post(w0, *world, e));
                                        }
                                    },
                                }
                            },
                            None => {
                                proof {
                                    assert(!collision_applies(w0, e));
                                    assert(collision_entity_post(w0, *world, e));
                                }
                            },
                        }
                    } else {
                        proof {
                            assert(!collision_applies(w0, e));
                            assert(collision_entity_post(w0, *world, e));
                        }
                    }
                },
                None => {
                    proof {
                        assert(!collision_applies(w0, e));
                        assert(collision_entity_post(w0, *world, e));
                    }
                },
            }
            proof {
                assert forall|e2: EntityId|
                    id_in_prefix(w0, i + 1, e2) implies #[trigger] collision_entity_post(
                    w0,
                    *world,
                    e2,
                ) by {
                    if e2 != e {
                        assert(id_in_prefix(w0, i as int, e2));
                        assert(collision_entity_post(w0, w_pre, e2));
                        assert(world.storage_spec().comps(e2) == w_pre.storage_spec().comps(e2));
                        lemma_collision_post_stable(w0, w_pre, *world, e2);
                    }
                }
                assert forall|e2: EntityId|
                    !id_in_prefix(w0, i + 1, e2) implies world.storage_spec().comps(e2)
                    == w0.storage_spec().comps(e2) by {
                    assert(!id_in_prefix(w0, i as int, e2));
                    assert(e2 != e);
                }
            }
            i = i + 1;
        }
        proof {
            assert forall|e: EntityId| #[trigger] collision_entity_post(w0, *world, e) by {
                if !id_in_prefix(w0, n as int, e) {
                    assert(world.storage_spec().comps(e) == w0.storage_spec().comps(e));
                    if collision_applies(w0, e) {
                        let j = choose|j: int|
                            0 <= j < w0.entities_spec().len() && w0.entities_spec()[j].id == e;
                        assert(id_in_prefix(w0, n as int, e));
                    }
                }
            }
        }
    }
}

/// Whether two boxes overlap on every axis.
pub open spec fn boxes_intersect_spec(
    a: crate::geometry::BoundingBox,
    b: crate::geometry::BoundingBox,
) -> bool {
    &&& !(a.max.x < b.min.x || a.min.x > b.max.x)
    &&& !(a.max.y < b.min.y || a.min.y > b.max.y)
    &&& !(a.max.z < b.min.z || a.min.z > b.max.z)
}

/// An entity's collision outcome only depends on its own components.
proof fn lemma_collision_post_stable(w0: World, wa: World, wb: World, e: EntityId)
    requires
        collision_entity_post(w0, wa, e),
        wb.storage_spec().comps(e) == wa.storage_spec().comps(e),
    ensures
        collision_entity_post(w0, wb, e),
{
    assert(wb.get_spec(e, ComponentType::Transform) == wa.get_spec(e, ComponentType::Transform));
    assert(wb.get_spec(e, ComponentType::Movement) == wa.get_spec(e, ComponentType::Movement));
    assert(wb.get_spec(e, ComponentType::Mesh) == wa.get_spec(e, ComponentType::Mesh));
    assert(wb.get_spec(e, ComponentType::Collider) == wa.get_spec(e, ComponentType::Collider));
}

/// Whether the mesh is asking for an upload and has a payload the renderer
/// can take: the dirty flag is set, no buffers exist yet, both payload
/// halves are present and the index count fits the draw call's type.
pub open spec fn mesh_wants_upload(m: MeshComponent) -> bool {
    &&& m.needs_rebuffer
    &&& m.vertex_buffer is None
    &&& m.last_vertices is Some
    &&& m.last_indices is Some
    &&& m.last_indices.unwrap()@.len() <= u32::MAX
}

/// Whether an upload happens for this mesh at the given handle counter.
pub open spec fn buffer_applies(m: MeshComponent, h: u64) -> bool {
    mesh_wants_upload(m) && h + 2 <= u64::MAX
}

/// The upload the renderer receives for this mesh at handle `h`.
pub open spec fn upload_event_of(m: MeshComponent, h: u64) -> crate::render::UploadEvent {
    crate::render::UploadEvent {
        vertex_handle: h,
        index_handle: (h + 1) as u64,
        vertices: m.last_vertices.unwrap()@,
        indices: m.last_indices.unwrap()@,
    }
}

/// The uploads one buffering pass makes, walking the entities in order and
/// advancing the handle counter by two per upload.
pub open spec fn bufferer_uploads(
    entities: Seq<crate::world::Entity>,
    st: crate::storage::ComponentStorage,
    h: u64,
) -> Seq<crate::render::UploadEvent>
    decreases entities.len(),
{
    if entities.len() == 0 {
        Seq::empty()
    } else {
        match mesh_in(st.get_spec(entities[0].id, ComponentType::Mesh)) {
            Some(m) => if buffer_applies(m, h) {
                seq![upload_event_of(m, h)] + bufferer_uploads(
                    entities.drop_first(),
                    st,
                    (h + 2) as u64,
                )
            } else {
                bufferer_uploads(entities.drop_first(), st, h)
            },
            None => bufferer_uploads(entities.drop_first(), st, h),
        }
    }
}

/// The handle counter after one buffering pass.
pub open spec fn bufferer_final_handle(
    entities: Seq<crate::world::Entity>,
    st: crate::storage::ComponentStorage,
    h: u64,
) -> u64
    decreases entities.len(),
{
    if entities.len() == 0 {
        h
    } else {
        match mesh_in(st.get_spec(entities[0].id, ComponentType::Mesh)) {
            Some(m) => if buffer_applies(m, h) {
                bufferer_final_handle(entities.drop_first(), st, (h + 2) as u64)
            } else {
                bufferer_final_handle(entities.drop_first(), st, h)
            },
            None => bufferer_final_handle(entities.drop_first(), st, h),
        }
    }
}

/// The handle counter as it stands when the buffering pass reaches the
/// entity with id `e`; the counter itself when no such entity comes.
pub open spec fn handle_at(
    entities: Seq<crate::world::Entity>,
    st: crate::storage::ComponentStorage,
    h: u64,
    e: EntityId,
) -> u64
    decreases entities.len(),
{
    if entities.len() == 0 {
        h
    } else if entities[0].id == e {
        h
    } else {
        handle_at(entities.drop_first(), st, bufferer_step_handle(entities[0], st, h), e)
    }
}

/// The mesh after an upload under some handle pair: buffers set, flag
/// cleared, index count recorded, payload untouched.
pub open spec fn buffered_as(m0: MeshComponent, m1: MeshComponent) -> bool {
    &&& m1.vertex_buffer is Some
    &&& m1.index_buffer == Some((m1.vertex_buffer.unwrap() + 1) as u64)
    &&& !m1.needs_rebuffer
    &&& m1.num_indices == m0.last_indices.unwrap()@.len() as u32
    &&& m1.last_vertices == m0.last_vertices
    &&& m1.last_indices == m0.last_indices
}

/// What one buffering pass leaves of entity `e`: a mesh that asked for an
/// upload is buffered, unless the pass reached it with the handle space
/// exhausted; everything else is untouched.  Which uploads happened, and
/// under which handles, is pinned exactly by the upload log.
pub open spec fn bufferer_entity_post(w0: World, w1: World, e: EntityId) -> bool {
    if w0.registered(e) && (match mesh_in(w0.get_spec(e, ComponentType::Mesh)) {
        Some(m) => mesh_wants_upload(m),
        None => false,
    }) {
        let m = mesh_in(w0.get_spec(e, ComponentType::Mesh)).unwrap();
        if handle_at(w0.entities_spec(), w0.storage_spec(), w0.next_handle_spec(), e) + 2
            <= u64::MAX {
            &&& (match mesh_in(w1.get_spec(e, ComponentType::Mesh)) {
                Some(m1) => buffered_as(m, m1),
                None => false,
            })
            &&& w1.get_spec(e, ComponentType::Transform) == w0.get_spec(
                e,
                ComponentType::Transform,
            )
            &&& w1.get_spec(e, ComponentType::Movement) == w0.get_spec(
                e,
                ComponentType::Movement,
            )
            &&& w1.get_spec(e, ComponentType::Collider) == w0.get_spec(
                e,
                ComponentType::Collider,
            )
        } else {
            w1.storage_spec().comps(e) == w0.storage_spec().comps(e)
        }
    } else {
        w1.storage_spec().comps(e) == w0.storage_spec().comps(e)
    }
}

/// What one buffering pass does to the world and the renderer.
pub open spec fn bufferer_post<R: Renderer>(w0: World, r0: R, w1: World, r1: R) -> bool {
    &&& frame_fields_unchanged(w0, w1)
    &&& w1.next_handle_spec() == bufferer_final_handle(
        w0.entities_spec(),
        w0.storage_spec(),
        w0.next_handle_spec(),
    )
    &&& r1.uploads() == r0.uploads() + bufferer_uploads(
        w0.entities_spec(),
        w0.storage_spec(),
        w0.next_handle_spec(),
    )
    &&& r1.draws() == r0.draws()
    &&& forall|e: EntityId| #[trigger] bufferer_entity_post(w0, w1, e)
    &&& forall|e: EntityId|
        w1.storage_spec().has_entity(e) == w0.storage_spec().has_entity(e)
}

/// One upload step of the fold, for the snoc lemma.
pub open spec fn bufferer_step_uploads(
    ent: crate::world::Entity,
    st: crate::storage::ComponentStorage,
    h: u64,
) -> Seq<crate::render::UploadEvent> {
    match mesh_in(st.get_spec(ent.id, ComponentType::Mesh)) {
        Some(m) => if buffer_applies(m, h) {
            seq![upload_event_of(m, h)]
        } else {
            Seq::empty()
        },
        None => Seq::empty(),
    }
}

/// One handle step of the fold, for the snoc lemma.
pub open spec fn bufferer_step_handle(
    ent: crate::world::Entity,
    st: crate::storage::ComponentStorage,
    h: u64,
) -> u64 {
    match mesh_in(st.get_spec(ent.id, ComponentType::Mesh)) {
        Some(m) => if buffer_applies(m, h) {
            (h + 2) as u64
        } else {
            h
        },
        None => h,
    }
}

/// Extending the walked prefix by one entity appends that entity's step to
/// the fold, at the handle the prefix ends with.
proof fn lemma_bufferer_fold_snoc(
    pre: Seq<crate::world::Entity>,
    ent: crate::world::Entity,
    st: crate::storage::ComponentStorage,
    h: u64,
)
    ensures
        bufferer_uploads(pre.push(ent), st, h) == bufferer_uploads(pre, st, h)
            + bufferer_step_uploads(ent, st, bufferer_final_handle(pre, st, h)),
        bufferer_final_handle(pre.push(ent), st, h) == bufferer_step_handle(
            ent,
            st,
            bufferer_final_handle(pre, st, h),
        ),
    decreases pre.len(),
{
    let s2 = pre.push(ent);
    if pre.len() == 0 {
        assert(s2.len() == 1);
        assert(s2[0] == ent);
        assert(s2.drop_first().len() == 0);
        assert(bufferer_uploads(s2.drop_first(), st, (h + 2) as u64)
            == Seq::<crate::render::UploadEvent>::empty());
        assert(bufferer_uploads(s2.drop_first(), st, h)
            == Seq::<crate::render::UploadEvent>::empty());
        assert(bufferer_final_handle(s2.drop_first(), st, (h + 2) as u64) == (h + 2) as u64);
        assert(bufferer_final_handle(s2.drop_first(), st, h) == h);
        assert(bufferer_uploads(pre, st, h) == Seq::<crate::render::UploadEvent>::empty());
        assert(bufferer_final_handle(pre, st, h) == h);
        match mesh_in(st.get_spec(ent.id, ComponentType::Mesh)) {
            Some(m) => {
                if buffer_applies(m, h) {
                    assert(bufferer_uploads(s2, st, h) =~= seq![upload_event_of(m, h)]);
                    assert(bufferer_step_uploads(ent, st, h) =~= seq![upload_event_of(m, h)]);
                    assert(bufferer_uploads(pre, st, h) + bufferer_step_uploads(ent, st, h)
                        =~= seq![upload_event_of(m, h)]);
                } else {
                    assert(bufferer_uploads(s2, st, h) =~= Seq::<
                        crate::render::UploadEvent,
                    >::empty());
                    assert(bufferer_uploads(pre, st, h) + bufferer_step_uploads(ent, st, h)
                        =~= Seq::<crate::render::UploadEvent>::empty());
                }
            },
            None => {
                assert(bufferer_uploads(s2, st, h) =~= Seq::<crate::render::UploadEvent>::empty());
                assert(bufferer_uploads(pre, st, h) + bufferer_step_uploads(ent, st, h) =~= Seq::<
                    crate::render::UploadEvent,
                >::empty());
            },
        }
    } else {
        assert(s2[0] == pre[0]);
        assert(s2.drop_first() =~= pre.drop_first().push(ent));
        match mesh_in(st.get_spec(pre[0].id, ComponentType::Mesh)) {
            Some(m) => {
                if buffer_applies(m, h) {
                    lemma_bufferer_fold_snoc(pre.drop_first(), ent, st, (h + 2) as u64);
                    assert(bufferer_uploads(s2, st, h) =~= bufferer_uploads(pre, st, h)
                        + bufferer_step_uploads(ent, st, bufferer_final_handle(pre, st, h)));
                } else {
                    lemma_bufferer_fold_snoc(pre.drop_first(), ent, st, h);
                    assert(bufferer_uploads(s2, st, h) =~= bufferer_uploads(pre, st, h)
                        + bufferer_step_uploads(ent, st, bufferer_final_handle(pre, st, h)));
                }
            },
            None => {
                lemma_bufferer_fold_snoc(pre.drop_first(), ent, st, h);
                assert(bufferer_uploads(s2, st, h) =~= bufferer_uploads(pre, st, h)
                    + bufferer_step_uploads(ent, st, bufferer_final_handle(pre, st, h)));
            },
        }
    }
}

/// The handle the pass reaches entity `i` with is the handle the walked
/// prefix ends with.
proof fn lemma_handle_at_index(
    entities: Seq<crate::world::Entity>,
    st: crate::storage::ComponentStorage,
    h: u64,
    i: int,
)
    requires
        0 <= i < entities.len(),
        forall|a: int, b: int|
            0 <= a < b < entities.len() ==> entities[a].id != entities[b].id,
    ensures
        handle_at(entities, st, h, entities[i].id) == bufferer_final_handle(
            entities.subrange(0, i),
            st,
            h,
        ),
    decreases i,
{
    if i == 0 {
        assert(entities.subrange(0, 0).len() == 0);
    } else {
        assert(entities[0].id != entities[i].id);
        let h2 = bufferer_step_handle(entities[0], st, h);
        let rest = entities.drop_first();
        assert(rest[i - 1] == entities[i]);
        assert forall|a: int, b: int|
            0 <= a < b < rest.len() implies rest[a].id != rest[b].id by {
            assert(entities[a + 1].id != entities[b + 1].id);
        }
        lemma_handle_at_index(rest, st, h2, i - 1);
        let sub = entities.subrange(0, i);
        assert(sub[0] == entities[0]);
        assert(sub.drop_first() =~= rest.subrange(0, i - 1));
        assert(bufferer_final_handle(sub, st, h) == bufferer_final_handle(
            sub.drop_first(),
            st,
            h2,
        ));
        assert(handle_at(entities, st, h, entities[i].id) == handle_at(
            rest,
            st,
            h2,
            entities[i].id,
        ));
    }
}

/// The handle counter grows by at most two per entity walked.
proof fn lemma_final_handle_bound(
    entities: Seq<crate::world::Entity>,
    st: crate::storage::ComponentStorage,
    h: u64,
)
    ensures
        h as int <= bufferer_final_handle(entities, st, h) as int,
        bufferer_final_handle(entities, st, h) as int <= h as int + 2 * entities.len(),
    decreases entities.len(),
{
    if entities.len() == 0 {
    } else {
        let h2 = bufferer_step_handle(entities[0], st, h);
        lemma_final_handle_bound(entities.drop_first(), st, h2);
        assert(bufferer_final_handle(entities, st, h) == bufferer_final_handle(
            entities.drop_first(),
            st,
            h2,
        ));
    }
}

/// After one buffering pass that never ran out of handles, no mesh asks
/// for an upload any more.
pub proof fn lemma_bufferer_clears_requests(w0: World, w1: World)
    requires
        w0.wf(),
        forall|e: EntityId| #[trigger] bufferer_entity_post(w0, w1, e),
        w1.entities_spec() == w0.entities_spec(),
        w0.next_handle_spec() as int + 2 * w0.entities_spec().len() <= u64::MAX,
    ensures
        forall|i: int|
            0 <= i < w1.entities_spec().len() ==> match mesh_in(
                #[trigger] w1.storage_spec().get_spec(
                    w1.entities_spec()[i].id,
                    ComponentType::Mesh,
                ),
            ) {
                Some(m) => !mesh_wants_upload(m),
                None => true,
            },
{
    let entities = w0.entities_spec();
    let st = w0.storage_spec();
    let h0 = w0.next_handle_spec();
    assert forall|i: int|
        0 <= i < w1.entities_spec().len() implies match mesh_in(
        #[trigger] w1.storage_spec().get_spec(w1.entities_spec()[i].id, ComponentType::Mesh),
    ) {
        Some(m) => !mesh_wants_upload(m),
        None => true,
    } by {
        let e = entities[i].id;
        assert(w0.registered(e));
        assert(bufferer_entity_post(w0, w1, e));
        match mesh_in(w0.get_spec(e, ComponentType::Mesh)) {
            Some(m) => {
                if mesh_wants_upload(m) {
                    lemma_handle_at_index(entities, st, h0, i);
                    lemma_final_handle_bound(entities.subrange(0, i), st, h0);
                    assert(entities.subrange(0, i).len() == i);
                    assert(handle_at(entities, st, h0, e) as int + 2 <= u64::MAX);
                    let m1 = mesh_in(w1.get_spec(e, ComponentType::Mesh)).unwrap();
                    lemma_buffered_mesh_is_clean(m, m1);
                } else {
                    assert(w1.get_spec(e, ComponentType::Mesh) == w0.get_spec(
                        e,
                        ComponentType::Mesh,
                    ));
                }
            },
            None => {
                assert(w1.get_spec(e, ComponentType::Mesh) == w0.get_spec(
                    e,
                    ComponentType::Mesh,
                ));
            },
        }
    }
}

/// Buffering runs at most once per dirty mark: after a pass that cleared
/// every upload request, a second pass uploads nothing and leaves the
/// handle counter alone, whatever it stands at.
pub proof fn lemma_second_buffering_pass_is_empty(w0: World, w1: World, h: u64)
    requires
        w0.wf(),
        forall|e: EntityId| #[trigger] bufferer_entity_post(w0, w1, e),
        w1.entities_spec() == w0.entities_spec(),
        w0.next_handle_spec() as int + 2 * w0.entities_spec().len() <= u64::MAX,
    ensures
        bufferer_uploads(w1.entities_spec(), w1.storage_spec(), h) == Seq::<
            crate::render::UploadEvent,
        >::empty(),
        bufferer_final_handle(w1.entities_spec(), w1.storage_spec(), h) == h,
{
    lemma_bufferer_clears_requests(w0, w1);
    lemma_bufferer_second_pass_uploads_nothing(w1.entities_spec(), w1.storage_spec(), h);
}

/// Whether `mesh_wants_upload` holds, decided exactly.
fn check_mesh_wants(m: &MeshComponent) -> (b: bool)
    ensures
        b == mesh_wants_upload(*m),
{
    if !m.needs_rebuffer {
        return false;
    }
    if m.vertex_buffer.is_some() {
        return false;
    }
    if m.last_vertices.is_none() {
        return false;
    }
    match &m.last_indices {
        None => false,
        Some(indices) => indices.len() <= u32::MAX as usize,
    }
}

impl MeshBufferer {
    /// One buffering pass: upload the payload of every mesh that asks for
    /// it, store the renderer's buffer handles and clear the dirty flag, so
    /// that a mesh is uploaded at most once per dirty mark.
    pub fn run<R: Renderer>(&self, world: &mut World, renderer: &mut R)
        requires
            old(world).wf(),
        ensures
            final(world).wf(),
            bufferer_post(*old(world), *old(renderer), *final(world), *final(renderer)),
    {
        let ghost w0 = *old(world);
        let ghost r0 = *old(renderer);
        let n = world.entities().len();
        let mut i: usize = 0;
        while i < n
            invariant
                world.wf(),
                n == w0.entities_spec().len(),
                i <= n,
                frame_fields_unchanged(w0, *world),
                w0.wf(),
                world.next_handle_spec() == bufferer_final_handle(
                    w0.entities_spec().subrange(0, i as int),
                    w0.storage_spec(),
                    w0.next_handle_spec(),
                ),
                renderer.uploads() == r0.uploads() + bufferer_uploads(
                    w0.entities_spec().subrange(0, i as int),
                    w0.storage_spec(),
                    w0.next_handle_spec(),
                ),
                renderer.draws() == r0.draws(),
                forall|e: EntityId|
                    world.storage_spec().has_entity(e) == w0.storage_spec().has_entity(e),
                forall|e: EntityId|
                    id_in_prefix(w0, i as int, e) ==> #[trigger] bufferer_entity_post(
                        w0,
                        *world,
                        e,
                    ),
                forall|e: EntityId|
                    !id_in_prefix(w0, i as int, e) ==> world.storage_spec().comps(e)
                        == w0.storage_spec().comps(e),
            decreases n - i,
        {
            let e = world.entities()[i].id;
            let ghost w_pre = *world;
            let ghost r_pre = *renderer;
            let ghost pre_seq = w0.entities_spec().subrange(0, i as int);
            let ghost h_i = world.next_handle_spec();
            proof {
                w0.lemma_entity_unique(e, i as int);
                assert(!id_in_prefix(w0, i as int, e));
                assert(w_pre.storage_spec().comps(e) == w0.storage_spec().comps(e));
            }
            let wants = match world.get(e, ComponentType::Mesh) {
                Some(c) => match c {
                    ComponentTypes::Mesh(m) => check_mesh_wants(m),
                    _ => false,
                },
                None => false,
            };
            proof {
                if w0.registered(e) {
                    assert forall|a: int, b: int|
                        0 <= a < b < w0.entities_spec().len() implies w0.entities_spec()[a].id
                        != w0.entities_spec()[b].id by {}
                    lemma_handle_at_index(
                        w0.entities_spec(),
                        w0.storage_spec(),
                        w0.next_handle_spec(),
                        i as int,
                    );
                    assert(handle_at(w0.entities_spec(), w0.storage_spec(), w0.next_handle_spec(), e)
                        == h_i);
                }
            }
            if wants {
                let h = world.next_buffer_handle();
                if h <= u64::MAX - 2 {
                    let pair = world.allocate_buffer_handles();
                    match world.take_component(e, ComponentType::Mesh) {
                        Some(c) => match c {
                            ComponentTypes::Mesh(mesh) => {
                                let mut mesh = mesh;
                                let num: u32 = match (&mesh.last_vertices, &mesh.last_indices) {
                                    (Some(vs), Some(indices)) => {
                                        renderer.upload_mesh(pair.0, pair.1, vs, indices);
                                        indices.len() as u32
                                    },
                                    _ => {
                                        proof {
                                            assert(false);
                                        }
                                        0
                                    },
                                };
                                mesh.vertex_buffer = Some(pair.0);
                                mesh.index_buffer = Some(pair.1);
                                mesh.needs_rebuffer = false;
                                mesh.num_indices = num;
                                world.add_component(e, ComponentTypes::Mesh(mesh));
                                proof {
                                    let m0 = mesh_in(
                                        w0.get_spec(e, ComponentType::Mesh),
                                    ).unwrap();
                                    assert(buffer_applies(m0, h_i));
                                    assert(mesh == (MeshComponent {
                                        vertex_buffer: Some(pair.0),
                                        index_buffer: Some((pair.0 + 1) as u64),
                                        needs_rebuffer: false,
                                        num_indices: m0.last_indices.unwrap()@.len() as u32,
                                        ..m0
                                    }));
                                    assert(buffered_as(m0, mesh));
                                    assert(bufferer_entity_post(w0, *world, e));
                                }
                            },
                            _ => {
                                proof {
                                    assert(false);
                                }
                            },
                        },
                        None => {
                            proof {
                                assert(false);
                            }
                        },
                    }
                } else {
                    proof {
                        assert(world.storage_spec().comps(e) == w0.storage_spec().comps(e));
                        assert(bufferer_entity_post(w0, *world, e));
                    }
                }
            } else {
                proof {
                    assert(bufferer_entity_post(w0, *world, e));
                }
            }
            proof {
                let cur_seq = w0.entities_spec().subrange(0, i + 1);
                assert(cur_seq =~= pre_seq.push(w0.entities_spec()[i as int]));
                lemma_bufferer_fold_snoc(
                    pre_seq,
                    w0.entities_spec()[i as int],
                    w0.storage_spec(),
                    w0.next_handle_spec(),
                );
                assert(renderer.uploads() =~= r0.uploads() + bufferer_uploads(
                    cur_seq,
                    w0.storage_spec(),
                    w0.next_handle_spec(),
                ));
                assert forall|e2: EntityId|
                    id_in_prefix(w0, i + 1, e2) implies #[trigger] bufferer_entity_post(
                    w0,
                    *world,
                    e2,
                ) by {
                    if e2 != e {
                        assert(id_in_prefix(w0, i as int, e2));
                        assert(bufferer_entity_post(w0, w_pre, e2));
                        assert(world.storage_spec().comps(e2) == w_pre.storage_spec().comps(e2));
                        lemma_bufferer_post_stable(w0, w_pre, *world, e2);
                    }
                }
                assert forall|e2: EntityId|
                    !id_in_prefix(w0, i + 1, e2) implies world.storage_spec().comps(e2)
                    == w0.storage_spec().comps(e2) by {
                    assert(!id_in_prefix(w0, i as int, e2));
                    assert(e2 != e);
                }
            }
            i = i + 1;
        }
        proof {
            assert(w0.entities_spec().subrange(0, n as int) =~= w0.entities_spec());
            assert forall|e: EntityId| #[trigger] bufferer_entity_post(w0, *world, e) by {
                if !id_in_prefix(w0, n as int, e) {
                    assert(world.storage_spec().comps(e) == w0.storage_spec().comps(e));
                    if w0.registered(e) {
                        let j = choose|j: int|
                            0 <= j < w0.entities_spec().len() && w0.entities_spec()[j].id == e;
                        assert(id_in_prefix(w0, n as int, e));
                    }
                }
            }
        }
    }
}

/// An entity's buffering outcome only depends on its own components.
proof fn lemma_bufferer_post_stable(w0: World, wa: World, wb: World, e: EntityId)
    requires
        bufferer_entity_post(w0, wa, e),
        wb.storage_spec().comps(e) == wa.storage_spec().comps(e),
    ensures
        bufferer_entity_post(w0, wb, e),
{
    assert(wb.get_spec(e, ComponentType::Transform) == wa.get_spec(e, ComponentType::Transform));
    assert(wb.get_spec(e, ComponentType::Movement) == wa.get_spec(e, ComponentType::Movement));
    assert(wb.get_spec(e, ComponentType::Mesh) == wa.get_spec(e, ComponentType::Mesh));
    assert(wb.get_spec(e, ComponentType::Collider) == wa.get_spec(e, ComponentType::Collider));
}

/// The draw call one rendering pass issues for entity `e`, if any: a mesh
/// with both buffer handles and a transform yield one indexed draw.
pub open spec fn draw_step(
    ent: crate::world::Entity,
    st: crate::storage::ComponentStorage,
) -> Seq<crate::render::DrawEvent> {
    match (
        mesh_in(st.get_spec(ent.id, ComponentType::Mesh)),
        transform_in(st.get_spec(ent.id, ComponentType::Transform)),
    ) {
        (Some(m), Some(t)) => if m.vertex_buffer is Some && m.index_buffer is Some {
            seq![
                crate::render::DrawEvent {
                    vertex_buffer: m.vertex_buffer.unwrap(),
                    index_buffer: m.index_buffer.unwrap(),
                    num_indices: m.num_indices,
                    model: t.model_matrix,
                },
            ]
        } else {
            Seq::empty()
        },
        _ => Seq::empty(),
    }
}

/// The draw calls one rendering pass issues, in entity order.
pub open spec fn renderer_draws(
    entities: Seq<crate::world::Entity>,
    st: crate::storage::ComponentStorage,
) -> Seq<crate::render::DrawEvent>
    decreases entities.len(),
{
    if entities.len() == 0 {
        Seq::empty()
    } else {
        draw_step(entities[0], st) + renderer_draws(entities.drop_first(), st)
    }
}

/// Extending the walked prefix by one entity appends that entity's draw.
proof fn lemma_renderer_draws_snoc(
    pre: Seq<crate::world::Entity>,
    ent: crate::world::Entity,
    st: crate::storage::ComponentStorage,
)
    ensures
        renderer_draws(pre.push(ent), st) == renderer_draws(pre, st) + draw_step(ent, st),
    decreases pre.len(),
{
    let s2 = pre.push(ent);
    if pre.len() == 0 {
        assert(s2[0] == ent);
        assert(s2.drop_first().len() == 0);
        assert(renderer_draws(s2.drop_first(), st) == Seq::<crate::render::DrawEvent>::empty());
        assert(renderer_draws(pre, st) == Seq::<crate::render::DrawEvent>::empty());
        assert(renderer_draws(s2, st) =~= renderer_draws(pre, st) + draw_step(ent, st));
    } else {
        assert(s2[0] == pre[0]);
        assert(s2.drop_first() =~= pre.drop_first().push(ent));
        lemma_renderer_draws_snoc(pre.drop_first(), ent, st);
        assert(renderer_draws(s2, st) =~= renderer_draws(pre, st) + draw_step(ent, st));
    }
}

impl MeshRenderer {
    /// One rendering pass: issue a draw call for every entity holding a
    /// buffered mesh and a transform, in entity order, with the entity's
    /// current model matrix.  The world itself is left untouched.
    pub fn run<R: Renderer>(&self, world: &mut World, renderer: &mut R)
        requires
            old(world).wf(),
        ensures
            final(world).wf(),
            *final(world) == *old(world),
            final(renderer).draws() == old(renderer).draws() + renderer_draws(
                old(world).entities_spec(),
                old(world).storage_spec(),
            ),
            final(renderer).uploads() == old(renderer).uploads(),
    {
        let ghost w0 = *old(world);
        let ghost r0 = *old(renderer);
        let n = world.entities().len();
        let mut i: usize = 0;
        while i < n
            invariant
                world.wf(),
                *world == w0,
                n == w0.entities_spec().len(),
                i <= n,
                renderer.draws() == r0.draws() + renderer_draws(
                    w0.entities_spec().subrange(0, i as int),
                    w0.storage_spec(),
                ),
                renderer.uploads() == r0.uploads(),
            decreases n - i,
        {
            let e = world.entities()[i].id;
            let ghost pre_seq = w0.entities_spec().subrange(0, i as int);
            let draw = match world.get(e, ComponentType::Mesh) {
                Some(c) => match c {
                    ComponentTypes::Mesh(m) => match (&m.vertex_buffer, &m.index_buffer) {
                        (Some(vb), Some(ib)) => Some((*vb, *ib, m.num_indices)),
                        _ => None,
                    },
                    _ => None,
                },
                None => None,
            };
            match draw {
                Some((vb, ib, num)) => {
                    match get_transform(world, e) {
                        Some(t) => {
                            renderer.draw_indexed(vb, ib, num, &t.model_matrix);
                        },
                        None => {},
                    }
                },
                None => {},
            }
            proof {
                let cur_seq = w0.entities_spec().subrange(0, i + 1);
                assert(cur_seq =~= pre_seq.push(w0.entities_spec()[i as int]));
                lemma_renderer_draws_snoc(pre_seq, w0.entities_spec()[i as int], w0.storage_spec());
                assert(renderer.draws() =~= r0.draws() + renderer_draws(
                    cur_seq,
                    w0.storage_spec(),
                ));
            }
            i = i + 1;
        }
        proof {
            assert(w0.entities_spec().subrange(0, n as int) =~= w0.entities_spec());
        }
    }
}

/// Whether the transform pass rederives the matrix of `e` this frame.
pub open spec fn transform_applies(w: World, e: EntityId) -> bool {
    &&& w.registered(e)
    &&& match transform_in(w.get_spec(e, ComponentType::Transform)) {
        Some(t) => t.fields_ok(),
        None => false,
    }
}

/// What one transform pass leaves of entity `e`.
pub open spec fn transform_entity_post(w0: World, w1: World, e: EntityId) -> bool {
    if transform_applies(w0, e) {
        let t = transform_in(w0.get_spec(e, ComponentType::Transform)).unwrap();
        &&& w1.get_spec(e, ComponentType::Transform) == Some(
            ComponentTypes::Transform(
                TransformComponent {
                    model_matrix: model_spec(t.position, t.rotation_matrix, t.scale),
                    ..t
                },
            ),
        )
        &&& w1.get_spec(e, ComponentType::Movement) == w0.get_spec(e, ComponentType::Movement)
        &&& w1.get_spec(e, ComponentType::Mesh) == w0.get_spec(e, ComponentType::Mesh)
        &&& w1.get_spec(e, ComponentType::Collider) == w0.get_spec(e, ComponentType::Collider)
    } else {
        w1.storage_spec().comps(e) == w0.storage_spec().comps(e)
    }
}

/// What one transform pass does to the world.
pub open spec fn transform_post(w0: World, w1: World) -> bool {
    &&& frame_fields_unchanged(w0, w1)
    &&& w1.next_handle_spec() == w0.next_handle_spec()
    &&& forall|e: EntityId| #[trigger] transform_entity_post(w0, w1, e)
    &&& forall|e: EntityId|
        w1.storage_spec().has_entity(e) == w0.storage_spec().has_entity(e)
}

/// Whether the transform's fields are in range, decided exactly.
fn check_fields_ok(t: &TransformComponent) -> (b: bool)
    ensures
        b == t.fields_ok(),
{
    -POS_LIMIT <= t.position.x && t.position.x <= POS_LIMIT && -POS_LIMIT <= t.position.y
        && t.position.y <= POS_LIMIT && -POS_LIMIT <= t.position.z && t.position.z <= POS_LIMIT
        && check_vec_fx_ok(&t.rotation_matrix.r0) && check_vec_fx_ok(&t.rotation_matrix.r1)
        && check_vec_fx_ok(&t.rotation_matrix.r2) && check_vec_fx_ok(&t.scale)
}

impl TransformSystem {
    /// One transform pass: rederive every transform's model matrix from its
    /// position, rotation matrix and scale.
    pub fn run<R: Renderer>(&self, world: &mut World, renderer: &mut R)
        requires
            old(world).wf(),
        ensures
            final(world).wf(),
            transform_post(*old(world), *final(world)),
            *final(renderer) == *old(renderer),
            final(renderer).uploads() == old(renderer).uploads(),
            final(renderer).draws() == old(renderer).draws(),
    {
        let ghost w0 = *old(world);
        let n = world.entities().len();
        let mut i: usize = 0;
        while i < n
            invariant
                world.wf(),
                n == w0.entities_spec().len(),
                i <= n,
                frame_fields_unchanged(w0, *world),
                world.next_handle_spec() == w0.next_handle_spec(),
                w0.wf(),
                forall|e: EntityId|
                    world.storage_spec().has_entity(e) == w0.storage_spec().has_entity(e),
                forall|e: EntityId|
                    id_in_prefix(w0, i as int, e) ==> #[trigger] transform_entity_post(
                        w0,
                        *world,
                        e,
                    ),
                forall|e: EntityId|
                    !id_in_prefix(w0, i as int, e) ==> world.storage_spec().comps(e)
                        == w0.storage_spec().comps(e),
            decreases n - i,
        {
            let e = world.entities()[i].id;
            let ghost w_pre = *world;
            proof {
                w0.lemma_entity_unique(e, i as int);
                assert(!id_in_prefix(w0, i as int, e));
            }
            match get_transform(world, e) {
                Some(t) => {
                    if check_fields_ok(&t) {
                        let mut t2 = t;
                        t2.update_model_matrix();
                        world.replace_component(e, ComponentTypes::Transform(t2));
                        proof {
                            assert(transform_applies(w0, e));
                            assert(transform_entity_post(w0, *world, e));
                        }
                    } else {
                        proof {
                            assert(!transform_applies(w0, e));
                            assert(transform_entity_post(w0, *world, e));
                        }
                    }
                },
                None => {
                    proof {
                        assert(!transform_applies(w0, e));
                        assert(transform_entity_post(w0, *world, e));
                    }
                },
            }
            proof {
                assert forall|e2: EntityId|
                    id_in_prefix(w0, i + 1, e2) implies #[trigger] transform_entity_post(
                    w0,
                    *world,
                    e2,
                ) by {
                    if e2 != e {
                        assert(id_in_prefix(w0, i as int, e2));
                        assert(transform_entity_post(w0, w_pre, e2));
                        assert(world.storage_spec().comps(e2) == w_pre.storage_spec().comps(e2));
                        lemma_transform_post_stable(w0, w_pre, *world, e2);
                    }
                }
                assert forall|e2: EntityId|
                    !id_in_prefix(w0, i + 1, e2) implies world.storage_spec().comps(e2)
                    == w0.storage_spec().comps(e2) by {
                    assert(!id_in_prefix(w0, i as int, e2));
                    assert(e2 != e);
                }
            }
            i = i + 1;
        }
        proof {
            assert forall|e: EntityId| #[trigger] transform_entity_post(w0, *world, e) by {
                if !id_in_prefix(w0, n as int, e) {
                    assert(world.storage_spec().comps(e) == w0.storage_spec().comps(e));
                    if transform_applies(w0, e) {
                        let j = choose|j: int|
                            0 <= j < w0.entities_spec().len() && w0.entities_spec()[j].id == e;
                        assert(id_in_prefix(w0, n as int, e));
                    }
                }
            }
        }
    }
}

/// An entity's transform outcome only depends on its own components.
proof fn lemma_transform_post_stable(w0: World, wa: World, wb: World, e: EntityId)
    requires
        transform_entity_post(w0, wa, e),
        wb.storage_spec().comps(e) == wa.storage_spec().comps(e),
    ensures
        transform_entity_post(w0, wb, e),
{
    assert(wb.get_spec(e, ComponentType::Transform) == wa.get_spec(e, ComponentType::Transform));
    assert(wb.get_spec(e, ComponentType::Movement) == wa.get_spec(e, ComponentType::Movement));
    assert(wb.get_spec(e, ComponentType::Mesh) == wa.get_spec(e, ComponentType::Mesh));
    assert(wb.get_spec(e, ComponentType::Collider) == wa.get_spec(e, ComponentType::Collider));
}

/// What running one registered system does to the world and the renderer.
pub open spec fn system_step<R: Renderer>(s: SystemKind, w0: World, r0: R, w1: World, r1: R) -> bool {
    match s {
        SystemKind::TransformUpdate(_) => transform_post(w0, w1) && r1 == r0,
        SystemKind::Movement(_) => movement_post(w0, w1) && r1 == r0,
        SystemKind::Collision(_) => collision_post(w0, w1) && r1 == r0,
        SystemKind::MeshBuffer(_) => bufferer_post(w0, r0, w1, r1),
        SystemKind::MeshDraw(_) => {
            &&& w1 == w0
            &&& r1.draws() == r0.draws() + renderer_draws(w0.entities_spec(), w0.storage_spec())
            &&& r1.uploads() == r0.uploads()
        },
    }
}

/// Running the listed systems in order relates the start state to the end
/// state through one `system_step` per system.
pub open spec fn phase_rel<R: Renderer>(
    systems: Seq<SystemKind>,
    w0: World,
    r0: R,
    w1: World,
    r1: R,
) -> bool
    decreases systems.len(),
{
    if systems.len() == 0 {
        w1 == w0 && r1 == r0
    } else {
        exists|wm: World, rm: R|
            #[trigger] system_step(systems[0], w0, r0, wm, rm) && phase_rel(
                systems.drop_first(),
                wm,
                rm,
                w1,
                r1,
            )
    }
}

/// One more step extends a phase relation at its end.
proof fn lemma_phase_rel_snoc<R: Renderer>(
    systems: Seq<SystemKind>,
    s: SystemKind,
    w0: World,
    r0: R,
    wm: World,
    rm: R,
    w2: World,
    r2: R,
)
    requires
        phase_rel(systems, w0, r0, wm, rm),
        system_step(s, wm, rm, w2, r2),
    ensures
        phase_rel(systems.push(s), w0, r0, w2, r2),
    decreases systems.len(),
{
    let s2 = systems.push(s);
    if systems.len() == 0 {
        assert(wm == w0 && rm == r0);
        assert(s2[0] == s);
        assert(s2.drop_first().len() == 0);
        assert(system_step(s2[0], w0, r0, w2, r2));
        assert(phase_rel(s2.drop_first(), w2, r2, w2, r2));
    } else {
        let (wa, ra) = choose|wa: World, ra: R|
            #[trigger] system_step(systems[0], w0, r0, wa, ra) && phase_rel(
                systems.drop_first(),
                wa,
                ra,
                wm,
                rm,
            );
        lemma_phase_rel_snoc(systems.drop_first(), s, wa, ra, wm, rm, w2, r2);
        assert(s2[0] == systems[0]);
        assert(s2.drop_first() =~= systems.drop_first().push(s));
        assert(system_step(s2[0], w0, r0, wa, ra));
        assert(phase_rel(s2.drop_first(), wa, ra, w2, r2));
    }
}

impl World {
    /// Run every update-phase system once, in registration order, against
    /// this world and the given renderer.
    pub fn run_update_systems<R: Renderer>(&mut self, renderer: &mut R)
        requires
            old(self).wf(),
        ensures
            final(self).wf(),
            phase_rel(
                old(self).update_systems_spec(),
                *old(self),
                *old(renderer),
                *final(self),
                *final(renderer),
            ),
            final(self).update_systems_spec() == old(self).update_systems_spec(),
            final(self).draw_systems_spec() == old(self).draw_systems_spec(),
    {
        let ghost w0 = *old(self);
        let ghost r0 = *old(renderer);
        let n = self.update_systems().len();
        let mut i: usize = 0;
        while i < n
            invariant
                self.wf(),
                n == w0.update_systems_spec().len(),
                i <= n,
                self.update_systems_spec() == w0.update_systems_spec(),
                self.draw_systems_spec() == w0.draw_systems_spec(),
                phase_rel(
                    w0.update_systems_spec().subrange(0, i as int),
                    w0,
                    r0,
                    *self,
                    *renderer,
                ),
            decreases n - i,
        {
            let s = self.update_systems()[i];
            let ghost w_pre = *self;
            let ghost r_pre = *renderer;
            run_one_system(s, self, renderer);
            proof {
                let pre_seq = w0.update_systems_spec().subrange(0, i as int);
                let cur_seq = w0.update_systems_spec().subrange(0, i + 1);
                assert(cur_seq =~= pre_seq.push(s));
                lemma_phase_rel_snoc(pre_seq, s, w0, r0, w_pre, r_pre, *self, *renderer);
            }
            i = i + 1;
        }
        proof {
            assert(w0.update_systems_spec().subrange(0, n as int) =~= w0.update_systems_spec());
        }
    }

    /// Run every draw-phase system once, in registration order, against
    /// this world and the given renderer.
    pub fn run_draw_systems<R: Renderer>(&mut self, renderer: &mut R)
        requires
            old(self).wf(),
        ensures
            final(self).wf(),
            phase_rel(
                old(self).draw_systems_spec(),
                *old(self),
                *old(renderer),
                *final(self),
                *final(renderer),
            ),
            final(self).update_systems_spec() == old(self).update_systems_spec(),
            final(self).draw_systems_spec() == old(self).draw_systems_spec(),
    {
        let ghost w0 = *old(self);
        let ghost r0 = *old(renderer);
        let n = self.draw_systems().len();
        let mut i: usize = 0;
        while i < n
            invariant
                self.wf(),
                n == w0.draw_systems_spec().len(),
                i <= n,
                self.update_systems_spec() == w0.update_systems_spec(),
                self.draw_systems_spec() == w0.draw_systems_spec(),
                phase_rel(
                    w0.draw_systems_spec().subrange(0, i as int),
                    w0,
                    r0,
                    *self,
                    *renderer,
                ),
            decreases n - i,
        {
            let s = self.draw_systems()[i];
            let ghost w_pre = *self;
            let ghost r_pre = *renderer;
            run_one_system(s, self, renderer);
            proof {
                let pre_seq = w0.draw_systems_spec().subrange(0, i as int);
                let cur_seq = w0.draw_systems_spec().subrange(0, i + 1);
                assert(cur_seq =~= pre_seq.push(s));
                lemma_phase_rel_snoc(pre_seq, s, w0, r0, w_pre, r_pre, *self, *renderer);
            }
            i = i + 1;
        }
        proof {
            assert(w0.draw_systems_spec().subrange(0, n as int) =~= w0.draw_systems_spec());
        }
    }
}

/// Dispatch one registered system.
fn run_one_system<R: Renderer>(s: SystemKind, world: &mut World, renderer: &mut R)
    requires
        old(world).wf(),
    ensures
        final(world).wf(),
        system_step(s, *old(world), *old(renderer), *final(world), *final(renderer)),
{
    match s {
        SystemKind::TransformUpdate(sys) => sys.run(world, renderer),
        SystemKind::Movement(sys) => sys.run(world, renderer),
        SystemKind::Collision(sys) => sys.run(world, renderer),
        SystemKind::MeshBuffer(sys) => sys.run(world, renderer),
        SystemKind::MeshDraw(sys) => sys.run(world, renderer),
    }
}

impl crate::world::System for TransformSystem {
    fn run<R: Renderer>(&self, world: &mut World, renderer: &mut R) {
        TransformSystem::run(self, world, renderer)
    }
}

impl crate::world::System for MovementSystem {
    fn run<R: Renderer>(&self, world: &mut World, renderer: &mut R) {
        MovementSystem::run(self, world, renderer)
    }
}

impl crate::world::System for CollisionSystem {
    fn run<R: Renderer>(&self, world: &mut World, renderer: &mut R) {
        CollisionSystem::run(self, world, renderer)
    }
}

impl crate::world::System for MeshBufferer {
    fn run<R: Renderer>(&self, world: &mut World, renderer: &mut R) {
        MeshBufferer::run(self, world, renderer)
    }
}

impl crate::world::System for MeshRenderer {
    fn run<R: Renderer>(&self, world: &mut World, renderer: &mut R) {
        MeshRenderer::run(self, world, renderer)
    }
}

/// A mesh that has been buffered no longer asks for an upload: buffering
/// runs at most once per dirty mark.
pub proof fn lemma_buffered_mesh_is_clean(m0: MeshComponent, m1: MeshComponent)
    requires
        buffered_as(m0, m1),
    ensures
        !mesh_wants_upload(m1),
{
}

/// A buffering pass over a world in which no mesh asks for an upload — as
/// after a pass that cleared every request — uploads nothing and leaves the
/// handle counter alone.
pub proof fn lemma_bufferer_second_pass_uploads_nothing(
    entities: Seq<crate::world::Entity>,
    st: crate::storage::ComponentStorage,
    h: u64,
)
    requires
        forall|i: int|
            0 <= i < entities.len() ==> match mesh_in(
                #[trigger] st.get_spec(entities[i].id, ComponentType::Mesh),
            ) {
                Some(m) => !mesh_wants_upload(m),
                None => true,
            },
    ensures
        bufferer_uploads(entities, st, h) == Seq::<crate::render::UploadEvent>::empty(),
        bufferer_final_handle(entities, st, h) == h,
    decreases entities.len(),
{
    if entities.len() == 0 {
    } else {
        assert(match mesh_in(st.get_spec(entities[0].id, ComponentType::Mesh)) {
            Some(m) => !mesh_wants_upload(m),
            None => true,
        });
        assert forall|i: int|
            0 <= i < entities.drop_first().len() implies match mesh_in(
            #[trigger] st.get_spec(entities.drop_first()[i].id, ComponentType::Mesh),
        ) {
            Some(m) => !mesh_wants_upload(m),
            None => true,
        } by {
            assert(entities.drop_first()[i] == entities[i + 1]);
        }
        lemma_bufferer_second_pass_uploads_nothing(entities.drop_first(), st, h);
    }
}

/// Whether `e` is among the first `i` registered ids of `w`.
pub open spec fn id_in_prefix(w: World, i: int, e: EntityId) -> bool {
    exists|j: int| 0 <= j < i && j < w.entities_spec().len() && #[trigger] w.entities_spec()[j].id == e
}

/// An entity's movement outcome only depends on its own components: worlds
/// that agree on them agree on the outcome.
proof fn lemma_entity_post_stable(w0: World, wa: World, wb: World, e: EntityId)
    requires
        movement_entity_post(w0, wa, e),
        wb.storage_spec().comps(e) == wa.storage_spec().comps(e),
    ensures
        movement_entity_post(w0, wb, e),
{
    assert(wb.get_spec(e, ComponentType::Transform) == wa.get_spec(e, ComponentType::Transform));
    assert(wb.get_spec(e, ComponentType::Movement) == wa.get_spec(e, ComponentType::Movement));
    assert(wb.get_spec(e, ComponentType::Mesh) == wa.get_spec(e, ComponentType::Mesh));
    assert(wb.get_spec(e, ComponentType::Collider) == wa.get_spec(e, ComponentType::Collider));
}

} // verus!
