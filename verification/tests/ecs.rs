//! Entity, storage, world and query behaviour on concrete values.

use game_ecs::components::{
    ColliderComponent, ComponentType, ComponentTypes, MeshComponent, MovementComponent,
    TransformComponent,
};
use game_ecs::fixed::FX_ONE;
use game_ecs::geometry::{Vector3, Vertex};
use game_ecs::world::{Entity, World};
use std::cell::Cell;

fn v3(x: i64, y: i64, z: i64) -> Vector3 {
    Vector3 { x, y, z }
}

fn unit_scale() -> Vector3 {
    v3(FX_ONE, FX_ONE, FX_ONE)
}

fn plain_vertex(x: i64, y: i64, z: i64) -> Vertex {
    Vertex {
        position: v3(x, y, z),
        color: v3(FX_ONE, 0, 0),
        should_wave: 0,
    }
}

#[test]
fn entity_ids_are_distinct_and_monotonic() {
    let mut world = World::new();
    let mut ids: Vec<u32> = Vec::new();
    for _ in 0..5 {
        ids.push(world.create_entity());
    }
    for i in 0..ids.len() {
        for j in (i + 1)..ids.len() {
            assert_ne!(ids[i], ids[j]);
            assert!(ids[i] < ids[j]);
        }
    }
    assert_eq!(ids, vec![0, 1, 2, 3, 4]);
}

#[test]
fn generate_id_advances_the_counter() {
    let mut counter: u32 = 7;
    let a = Entity::generate_id(&mut counter);
    let b = Entity::generate_id(&mut counter);
    assert_eq!(a, 7);
    assert_eq!(b, 8);
    assert_eq!(counter, 9);
    let e = Entity::new(&mut counter);
    assert_eq!(e.id, 9);
}

#[test]
fn added_component_is_retrievable_and_queried() {
    let mut world = World::new();
    let e = world.create_entity();
    let m = MovementComponent::new(v3(FX_ONE, 0, 0), v3(0, 0, 0));
    world.add_component(e, ComponentTypes::Movement(m));
    match world.get(e, ComponentType::Movement) {
        Some(ComponentTypes::Movement(got)) => {
            assert_eq!(*got, m);
        }
        _ => panic!("movement component not found"),
    }
    let q = world.query(&vec![ComponentType::Movement]);
    assert!(q.contains(&e));
}

#[test]
fn removed_component_is_gone_and_unqueried() {
    let mut world = World::new();
    let e = world.create_entity();
    world.add_component(
        e,
        ComponentTypes::Movement(MovementComponent::new(v3(1, 2, 3), v3(0, 0, 0))),
    );
    world.remove_component(e, ComponentType::Movement);
    assert!(world.get(e, ComponentType::Movement).is_none());
    let q = world.query(&vec![ComponentType::Movement]);
    assert!(!q.contains(&e));
    // the entity itself is still registered
    assert!(world.query(&vec![]).contains(&e));
}

#[test]
fn removed_entity_is_in_no_query_result() {
    let mut world = World::new();
    let e = world.create_entity();
    world.add_component(
        e,
        ComponentTypes::Movement(MovementComponent::new(v3(1, 0, 0), v3(0, 0, 0))),
    );
    world.add_component(e, ComponentTypes::Collider(ColliderComponent::new()));
    world.remove_entity(e);
    assert!(world.get(e, ComponentType::Movement).is_none());
    assert!(world.get(e, ComponentType::Collider).is_none());
    assert!(world.get(e, ComponentType::Transform).is_none());
    assert!(world.get(e, ComponentType::Mesh).is_none());
    assert!(!world.query(&vec![]).contains(&e));
    assert!(!world.query(&vec![ComponentType::Movement]).contains(&e));
}

#[test]
fn empty_query_returns_every_live_entity() {
    let mut world = World::new();
    let a = world.create_entity();
    let b = world.create_entity();
    let c = world.create_entity();
    world.remove_entity(b);
    let q = world.query(&vec![]);
    assert_eq!(q, vec![a, c]);
}

#[test]
fn two_kind_query_is_the_intersection() {
    let mut world = World::new();
    let both = world.create_entity();
    let only_t = world.create_entity();
    let only_m = world.create_entity();
    let neither = world.create_entity();
    world.add_component(
        both,
        ComponentTypes::Transform(TransformComponent::new(v3(0, 0, 0), v3(0, 0, 0), unit_scale())),
    );
    world.add_component(
        both,
        ComponentTypes::Movement(MovementComponent::new(v3(0, 0, 0), v3(0, 0, 0))),
    );
    world.add_component(
        only_t,
        ComponentTypes::Transform(TransformComponent::new(v3(0, 0, 0), v3(0, 0, 0), unit_scale())),
    );
    world.add_component(
        only_m,
        ComponentTypes::Movement(MovementComponent::new(v3(0, 0, 0), v3(0, 0, 0))),
    );
    let q_both = world.query(&vec![ComponentType::Transform, ComponentType::Movement]);
    let q_t = world.query(&vec![ComponentType::Transform]);
    let q_m = world.query(&vec![ComponentType::Movement]);
    for e in [both, only_t, only_m, neither] {
        assert_eq!(
            q_both.contains(&e),
            q_t.contains(&e) && q_m.contains(&e),
            "intersection mismatch for {e}"
        );
    }
    assert_eq!(q_both, vec![both]);
}

#[test]
fn storage_keeps_one_component_per_kind() {
    let mut storage = game_ecs::storage::ComponentStorage::new();
    storage.add_component(3, ComponentTypes::Collider(ColliderComponent::new()));
    storage.add_component(
        3,
        ComponentTypes::Movement(MovementComponent::new(v3(5, 5, 5), v3(0, 0, 0))),
    );
    assert!(storage.has_component(3, ComponentType::Collider));
    assert!(storage.has_component(3, ComponentType::Movement));
    assert!(!storage.has_component(3, ComponentType::Mesh));
    assert!(!storage.has_component(4, ComponentType::Collider));
    assert_eq!(storage.row_count(), 1);
    assert_eq!(storage.row_id(0), 3);
    let taken = storage.take_component(3, ComponentType::Movement);
    match taken {
        Some(ComponentTypes::Movement(m)) => assert_eq!(m.velocity, v3(5, 5, 5)),
        _ => panic!("expected the movement component back"),
    }
    assert!(!storage.has_component(3, ComponentType::Movement));
    assert!(storage.has_component(3, ComponentType::Collider));
    storage.remove_entity(3);
    assert!(!storage.has_component(3, ComponentType::Collider));
    assert_eq!(storage.row_count(), 0);
}

#[test]
fn replace_component_swaps_in_place() {
    let mut world = World::new();
    let e = world.create_entity();
    world.add_component(
        e,
        ComponentTypes::Movement(MovementComponent::new(v3(1, 1, 1), v3(0, 0, 0))),
    );
    let m2 = MovementComponent::new(v3(9, 9, 9), v3(1, 0, 0));
    world.replace_component(e, ComponentTypes::Movement(m2));
    match world.get(e, ComponentType::Movement) {
        Some(ComponentTypes::Movement(got)) => assert_eq!(*got, m2),
        _ => panic!("expected replaced movement"),
    }
}

#[test]
fn component_type_tags_match_variants() {
    let mesh = ComponentTypes::Mesh(MeshComponent::new(vec![plain_vertex(0, 0, 0)], vec![0]));
    let transform = ComponentTypes::Transform(TransformComponent::new(
        v3(0, 0, 0),
        v3(0, 0, 0),
        unit_scale(),
    ));
    let movement = ComponentTypes::Movement(MovementComponent::new(v3(0, 0, 0), v3(0, 0, 0)));
    let collider = ComponentTypes::Collider(ColliderComponent::new());
    assert_eq!(mesh.component_type(), ComponentType::Mesh);
    assert_eq!(transform.component_type(), ComponentType::Transform);
    assert_eq!(movement.component_type(), ComponentType::Movement);
    assert_eq!(collider.component_type(), ComponentType::Collider);
}

#[test]
fn foreach_helpers_visit_matching_components() {
    let mut storage = game_ecs::storage::ComponentStorage::new();
    storage.add_component(1, ComponentTypes::Collider(ColliderComponent::new()));
    storage.add_component(
        1,
        ComponentTypes::Movement(MovementComponent::new(v3(0, 0, 0), v3(0, 0, 0))),
    );
    storage.add_component(2, ComponentTypes::Collider(ColliderComponent::new()));

    let seen = Cell::new(0usize);
    storage.foreach_component_by_type(ComponentType::Collider, |_c| {
        seen.set(seen.get() + 1);
    });
    assert_eq!(seen.get(), 2);

    let seen = Cell::new(0usize);
    storage.foreach_component_by_entity(1, |_c| {
        seen.set(seen.get() + 1);
    });
    assert_eq!(seen.get(), 2);

    let kind = Cell::new(None);
    storage.with_component(1, ComponentType::Movement, |c| {
        kind.set(Some(c.component_type()));
    });
    assert_eq!(kind.get(), Some(ComponentType::Movement));

    let hits = Cell::new(0usize);
    storage.foreach_entity_with_component_types(
        &vec![ComponentType::Collider, ComponentType::Movement],
        |e| {
            assert_eq!(e, 1);
            hits.set(hits.get() + 1);
        },
    );
    assert_eq!(hits.get(), 1);
}

#[test]
fn advance_accumulates_the_clock() {
    let mut world = World::new();
    world.advance(FX_ONE / 2);
    world.advance(FX_ONE / 4);
    let state = world.frame_state();
    assert_eq!(state.delta_time, FX_ONE / 4);
    assert_eq!(state.total_time, FX_ONE / 2 + FX_ONE / 4);
}

#[test]
fn insert_entity_registers_and_reserves_the_id() {
    let mut world = World::new();
    let mut counter: u32 = 100;
    let entity = Entity::new(&mut counter);
    world.insert_entity(entity);
    assert!(world.query(&vec![]).contains(&100));
    // ids issued afterwards do not collide with the inserted one
    let fresh = world.create_entity();
    assert!(fresh > 100);
}

#[test]
fn test_world_builds_the_demo_scene() {
    let mut world = World::new();
    world.test_world();
    assert_eq!(world.entities().len(), 2);
    let meshes = world.query(&vec![ComponentType::Mesh, ComponentType::Transform]);
    assert_eq!(meshes.len(), 2);
    let movers = world.query(&vec![ComponentType::Movement]);
    assert_eq!(movers.len(), 1);
    let cube = movers[0];
    match world.get(cube, ComponentType::Mesh) {
        Some(ComponentTypes::Mesh(m)) => {
            let vs = m.last_vertices.as_ref().unwrap();
            let is_ = m.last_indices.as_ref().unwrap();
            assert_eq!(vs.len(), 24);
            assert_eq!(is_.len(), 36);
            assert!(m.needs_rebuffer);
        }
        _ => panic!("cube mesh missing"),
    }
    assert_eq!(world.update_systems().len(), 3);
    assert_eq!(world.draw_systems().len(), 1);
}

#[test]
fn take_components_returns_in_kind_order() {
    let mut world = World::new();
    let e = world.create_entity();
    world.add_component(
        e,
        ComponentTypes::Movement(MovementComponent::new(v3(1, 0, 0), v3(0, 0, 0))),
    );
    world.add_component(e, ComponentTypes::Collider(ColliderComponent::new()));
    let taken = world.take_components(
        e,
        &vec![
            ComponentType::Collider,
            ComponentType::Transform,
            ComponentType::Movement,
        ],
    );
    // transform is absent, so two components come back, in kind order
    assert_eq!(taken.len(), 2);
    assert!(matches!(taken[0], ComponentTypes::Collider(_)));
    assert!(matches!(taken[1], ComponentTypes::Movement(_)));
    assert!(world.get(e, ComponentType::Collider).is_none());
    assert!(world.get(e, ComponentType::Movement).is_none());
    // mutate and put one back
    match taken.into_iter().next().unwrap() {
        ComponentTypes::Collider(mut c) => {
            c.needs_aabb_update = false;
            world.add_component(e, ComponentTypes::Collider(c));
        }
        _ => panic!("expected the collider first"),
    }
    match world.get(e, ComponentType::Collider) {
        Some(ComponentTypes::Collider(c)) => assert!(!c.needs_aabb_update),
        _ => panic!("collider was not put back"),
    }
}
