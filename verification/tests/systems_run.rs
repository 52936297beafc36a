//! The per-frame systems on concrete scenes, driven through a recording
//! renderer.

use game_ecs::components::{
    ColliderComponent, ComponentType, ComponentTypes, MeshComponent, MovementComponent,
    TransformComponent,
};
use game_ecs::fixed::FX_ONE;
use game_ecs::geometry::{Vector3, Vertex};
use game_ecs::render::RecordingRenderer;
use game_ecs::systems::{
    CollisionSystem, MeshBufferer, MeshRenderer, MovementSystem, SystemKind, TransformSystem,
};
use game_ecs::world::World;

fn v3(x: i64, y: i64, z: i64) -> Vector3 {
    Vector3 { x, y, z }
}

fn unit_scale() -> Vector3 {
    v3(FX_ONE, FX_ONE, FX_ONE)
}

fn corner_vertex(x: i64, y: i64, z: i64) -> Vertex {
    Vertex {
        position: v3(x, y, z),
        color: v3(FX_ONE, FX_ONE, FX_ONE),
        should_wave: 0,
    }
}

/// Position integrates with the pre-update velocity; the velocity update
/// from acceleration comes after.
#[test]
fn movement_updates_position_before_velocity() {
    let mut world = World::new();
    let e = world.create_entity();
    world.add_component(
        e,
        ComponentTypes::Transform(TransformComponent::new(v3(0, 0, 0), v3(0, 0, 0), unit_scale())),
    );
    world.add_component(
        e,
        ComponentTypes::Movement(MovementComponent::new(v3(FX_ONE, 0, 0), v3(0, -FX_ONE, 0))),
    );
    world.add_update_system(SystemKind::Movement(MovementSystem {}));
    world.advance(FX_ONE);
    let mut renderer = RecordingRenderer::new();
    world.run_update_systems(&mut renderer);
    match world.get(e, ComponentType::Transform) {
        Some(ComponentTypes::Transform(t)) => {
            assert_eq!(t.position, v3(FX_ONE, 0, 0));
            assert_eq!(t.model_matrix.translation, v3(FX_ONE, 0, 0));
        }
        _ => panic!("transform missing"),
    }
    match world.get(e, ComponentType::Movement) {
        Some(ComponentTypes::Movement(m)) => {
            assert_eq!(m.velocity, v3(FX_ONE, -FX_ONE, 0));
            assert_eq!(m.acceleration, v3(0, -FX_ONE, 0));
        }
        _ => panic!("movement missing"),
    }
}

#[test]
fn movement_marks_a_present_collider_stale() {
    let mut world = World::new();
    let e = world.create_entity();
    world.add_component(
        e,
        ComponentTypes::Transform(TransformComponent::new(v3(0, 0, 0), v3(0, 0, 0), unit_scale())),
    );
    world.add_component(
        e,
        ComponentTypes::Movement(MovementComponent::new(v3(FX_ONE, 0, 0), v3(0, 0, 0))),
    );
    let mut collider = ColliderComponent::new();
    collider.needs_aabb_update = false;
    collider.needs_obb_update = false;
    world.add_component(e, ComponentTypes::Collider(collider));
    world.advance(FX_ONE / 60);
    let mut renderer = RecordingRenderer::new();
    MovementSystem {}.run(&mut world, &mut renderer);
    match world.get(e, ComponentType::Collider) {
        Some(ComponentTypes::Collider(c)) => {
            assert!(c.needs_aabb_update);
            assert!(c.needs_obb_update);
        }
        _ => panic!("collider missing"),
    }
}

/// The cube corners at (-1,-1,-1) and (1,1,1) under the identity transform
/// give the unit box; translated by (5,0,0) and recomputed, the box moves
/// with it.
#[test]
fn collider_bounds_recompute_follows_the_transform() {
    let mut world = World::new();
    let e = world.create_entity();
    let vertices = vec![
        corner_vertex(-FX_ONE, -FX_ONE, -FX_ONE),
        corner_vertex(FX_ONE, FX_ONE, FX_ONE),
    ];
    let indices: Vec<u16> = vec![0, 1];
    world.add_component(e, ComponentTypes::Mesh(MeshComponent::new(vertices, indices)));
    world.add_component(
        e,
        ComponentTypes::Transform(TransformComponent::new(v3(0, 0, 0), v3(0, 0, 0), unit_scale())),
    );
    world.add_component(e, ComponentTypes::Collider(ColliderComponent::new()));
    let mut renderer = RecordingRenderer::new();
    CollisionSystem {}.run(&mut world, &mut renderer);
    match world.get(e, ComponentType::Collider) {
        Some(ComponentTypes::Collider(c)) => {
            assert!(!c.needs_aabb_update);
            let aabb = c.aabb.expect("bounds were computed");
            assert_eq!(aabb.min, v3(-FX_ONE, -FX_ONE, -FX_ONE));
            assert_eq!(aabb.max, v3(FX_ONE, FX_ONE, FX_ONE));
        }
        _ => panic!("collider missing"),
    }
    // translate by five units, mark the bounds stale, and recompute
    match world.take_component(e, ComponentType::Transform) {
        Some(ComponentTypes::Transform(mut t)) => {
            t.translate(v3(5 * FX_ONE, 0, 0));
            world.add_component(e, ComponentTypes::Transform(t));
        }
        _ => panic!("transform missing"),
    }
    match world.take_component(e, ComponentType::Collider) {
        Some(ComponentTypes::Collider(mut c)) => {
            c.invalidate_bounds();
            world.add_component(e, ComponentTypes::Collider(c));
        }
        _ => panic!("collider missing"),
    }
    CollisionSystem {}.run(&mut world, &mut renderer);
    match world.get(e, ComponentType::Collider) {
        Some(ComponentTypes::Collider(c)) => {
            let aabb = c.aabb.expect("bounds were recomputed");
            assert_eq!(aabb.min, v3(4 * FX_ONE, -FX_ONE, -FX_ONE));
            assert_eq!(aabb.max, v3(6 * FX_ONE, FX_ONE, FX_ONE));
        }
        _ => panic!("collider missing"),
    }
}

#[test]
fn collision_skips_clean_colliders() {
    let mut world = World::new();
    let e = world.create_entity();
    world.add_component(
        e,
        ComponentTypes::Mesh(MeshComponent::new(vec![corner_vertex(0, 0, 0)], vec![0])),
    );
    world.add_component(
        e,
        ComponentTypes::Transform(TransformComponent::new(v3(0, 0, 0), v3(0, 0, 0), unit_scale())),
    );
    let mut collider = ColliderComponent::new();
    collider.needs_aabb_update = false;
    world.add_component(e, ComponentTypes::Collider(collider));
    let mut renderer = RecordingRenderer::new();
    CollisionSystem {}.run(&mut world, &mut renderer);
    match world.get(e, ComponentType::Collider) {
        Some(ComponentTypes::Collider(c)) => assert!(c.aabb.is_none()),
        _ => panic!("collider missing"),
    }
}

/// Buffering uploads once per dirty mark: a second run with no new mutation
/// requests nothing from the renderer.
#[test]
fn mesh_buffering_runs_at_most_once_per_dirty_mark() {
    let mut world = World::new();
    let e = world.create_entity();
    let vertices = vec![corner_vertex(0, 0, 0), corner_vertex(FX_ONE, 0, 0)];
    let indices: Vec<u16> = vec![0, 1, 0];
    world.add_component(
        e,
        ComponentTypes::Mesh(MeshComponent::new(vertices.clone(), indices.clone())),
    );
    world.add_update_system(SystemKind::MeshBuffer(MeshBufferer {}));
    let mut renderer = RecordingRenderer::new();
    world.advance(FX_ONE / 60);
    world.run_update_systems(&mut renderer);
    assert_eq!(renderer.upload_count(), 1);
    assert_eq!(renderer.uploads[0].vertex_handle, 0);
    assert_eq!(renderer.uploads[0].index_handle, 1);
    assert_eq!(renderer.uploads[0].vertices, vertices);
    assert_eq!(renderer.uploads[0].indices, indices);
    match world.get(e, ComponentType::Mesh) {
        Some(ComponentTypes::Mesh(m)) => {
            assert!(!m.needs_rebuffer);
            assert_eq!(m.vertex_buffer, Some(0));
            assert_eq!(m.index_buffer, Some(1));
            assert_eq!(m.num_indices, 3);
        }
        _ => panic!("mesh missing"),
    }
    // a second pass with no new mutation uploads nothing
    world.advance(FX_ONE / 60);
    world.run_update_systems(&mut renderer);
    assert_eq!(renderer.upload_count(), 1);
}

#[test]
fn rebuffering_after_update_uses_fresh_handles() {
    let mut world = World::new();
    let e = world.create_entity();
    world.add_component(
        e,
        ComponentTypes::Mesh(MeshComponent::new(vec![corner_vertex(0, 0, 0)], vec![0])),
    );
    let mut renderer = RecordingRenderer::new();
    MeshBufferer {}.run(&mut world, &mut renderer);
    assert_eq!(renderer.upload_count(), 1);
    // replace the payload: marks the mesh dirty again, but the old buffers
    // are still attached, so the pass leaves it alone (the flag asks for an
    // upload only while no buffer exists)
    match world.take_component(e, ComponentType::Mesh) {
        Some(ComponentTypes::Mesh(mut m)) => {
            m.update(vec![corner_vertex(FX_ONE, 0, 0)], vec![0]);
            m.vertex_buffer = None;
            m.index_buffer = None;
            world.add_component(e, ComponentTypes::Mesh(m));
        }
        _ => panic!("mesh missing"),
    }
    MeshBufferer {}.run(&mut world, &mut renderer);
    assert_eq!(renderer.upload_count(), 2);
    assert_eq!(renderer.uploads[1].vertex_handle, 2);
    assert_eq!(renderer.uploads[1].index_handle, 3);
}

#[test]
fn draw_pass_emits_one_call_per_buffered_mesh() {
    let mut world = World::new();
    let drawn = world.create_entity();
    world.add_component(
        drawn,
        ComponentTypes::Mesh(MeshComponent::new(vec![corner_vertex(0, 0, 0)], vec![0])),
    );
    world.add_component(
        drawn,
        ComponentTypes::Transform(TransformComponent::new(
            v3(FX_ONE, 0, 0),
            v3(0, 0, 0),
            unit_scale(),
        )),
    );
    // a mesh without a transform is not drawn
    let bare = world.create_entity();
    world.add_component(
        bare,
        ComponentTypes::Mesh(MeshComponent::new(vec![corner_vertex(0, 0, 0)], vec![0])),
    );
    world.add_update_system(SystemKind::MeshBuffer(MeshBufferer {}));
    world.add_draw_system(SystemKind::MeshDraw(MeshRenderer {}));
    let mut renderer = RecordingRenderer::new();
    world.run_update_systems(&mut renderer);
    assert_eq!(renderer.upload_count(), 2);
    world.run_draw_systems(&mut renderer);
    assert_eq!(renderer.draw_count(), 1);
    assert_eq!(renderer.draws[0].vertex_buffer, 0);
    assert_eq!(renderer.draws[0].index_buffer, 1);
    assert_eq!(renderer.draws[0].num_indices, 1);
    assert_eq!(renderer.draws[0].model.translation, v3(FX_ONE, 0, 0));
}

#[test]
fn transform_system_rederives_matrices() {
    let mut world = World::new();
    let e = world.create_entity();
    let mut t = TransformComponent::new(v3(0, 0, 0), v3(0, 0, 0), unit_scale());
    // knock the stored matrix out of line with the fields
    t.model_matrix.translation = v3(9, 9, 9);
    world.add_component(e, ComponentTypes::Transform(t));
    let mut renderer = RecordingRenderer::new();
    TransformSystem {}.run(&mut world, &mut renderer);
    match world.get(e, ComponentType::Transform) {
        Some(ComponentTypes::Transform(t2)) => {
            assert_eq!(t2.model_matrix.translation, v3(0, 0, 0));
        }
        _ => panic!("transform missing"),
    }
}

/// A value out of exact range makes a system skip the entity, not fail.
#[test]
fn out_of_range_movement_is_skipped() {
    let mut world = World::new();
    let e = world.create_entity();
    world.add_component(
        e,
        ComponentTypes::Transform(TransformComponent::new(v3(0, 0, 0), v3(0, 0, 0), unit_scale())),
    );
    world.add_component(
        e,
        ComponentTypes::Movement(MovementComponent::new(
            v3(i64::MAX / 2, 0, 0),
            v3(0, 0, 0),
        )),
    );
    world.advance(FX_ONE);
    let mut renderer = RecordingRenderer::new();
    MovementSystem {}.run(&mut world, &mut renderer);
    match world.get(e, ComponentType::Transform) {
        Some(ComponentTypes::Transform(t)) => assert_eq!(t.position, v3(0, 0, 0)),
        _ => panic!("transform missing"),
    }
}

/// One whole frame on the demo scene: advance, update phase, draw phase.
#[test]
fn demo_scene_runs_one_frame() {
    let mut world = World::new();
    world.test_world();
    let mut renderer = RecordingRenderer::new();
    world.advance(FX_ONE);
    world.run_update_systems(&mut renderer);
    world.run_draw_systems(&mut renderer);
    // both meshes were uploaded once and drawn once
    assert_eq!(renderer.upload_count(), 2);
    assert_eq!(renderer.draw_count(), 2);
    // the cube fell one unit in one second
    let cube = world.query(&vec![ComponentType::Movement])[0];
    match world.get(cube, ComponentType::Transform) {
        Some(ComponentTypes::Transform(t)) => {
            assert_eq!(t.position, v3(0, 500_000 - FX_ONE, -500_000));
        }
        _ => panic!("cube transform missing"),
    }
    // a second frame uploads nothing new but draws again
    world.advance(FX_ONE);
    world.run_update_systems(&mut renderer);
    world.run_draw_systems(&mut renderer);
    assert_eq!(renderer.upload_count(), 2);
    assert_eq!(renderer.draw_count(), 4);
}
