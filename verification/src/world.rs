//! The world: the aggregate root owning the entity registry, the component
//! storage, the frame clock and the two ordered system lists.

use vstd::prelude::*;

use crate::components::{kind_of, ComponentType, ComponentTypes};
use crate::state::GameState;
use crate::storage::ComponentStorage;
use crate::systems::SystemKind;

verus! {

/// An entity identifier: opaque, unique, never reused.
pub type EntityId = u32;

/// An entity record; it carries nothing but its id.
#[derive(Clone, Copy, Debug, PartialEq, Eq, Structural)]
pub struct Entity {
    pub id: EntityId,
}

impl Entity {
    /// Draw a fresh id from the given registry counter.
    pub fn generate_id(counter: &mut u32) -> (id: EntityId)
        requires
            *old(counter) < u32::MAX,
        ensures
            id == *old(counter),
            *final(counter) == *old(counter) + 1,
    {
        let id = *counter;
        *counter = *counter + 1;
        id
    }

    /// A fresh entity with an id drawn from the given registry counter.
    pub fn new(counter: &mut u32) -> (e: Entity)
        requires
            *old(counter) < u32::MAX,
        ensures
            e.id == *old(counter),
            *final(counter) == *old(counter) + 1,
    {
        let id = Self::generate_id(counter);
        Entity { id }
    }
}

/// A unit of behaviour run once per frame per phase.  Implementations may
/// mutate the world and talk to the renderer; they must keep the world
/// well-formed.
pub trait System {
    fn run<R: crate::render::Renderer>(&self, world: &mut World, renderer: &mut R)
        requires
            old(world).wf(),
        ensures
            final(world).wf(),
    ;
}

/// Storage for entities, components and systems, plus the frame clock and
/// the registry counters.
pub struct World {
    pub(crate) entities: Vec<Entity>,
    pub(crate) component_storage: ComponentStorage,
    pub(crate) update_systems: Vec<SystemKind>,
    pub(crate) draw_systems: Vec<SystemKind>,
    pub(crate) state: GameState,
    pub(crate) next_entity_id: u32,
    pub(crate) next_buffer_handle: u64,
}

impl World {
    /// The registered entities, in creation order.
    pub closed spec fn entities_spec(&self) -> Seq<Entity> {
        self.entities@
    }

    /// The component storage.
    pub closed spec fn storage_spec(&self) -> ComponentStorage {
        self.component_storage
    }

    /// The update-phase systems, in registration order.
    pub closed spec fn update_systems_spec(&self) -> Seq<SystemKind> {
        self.update_systems@
    }

    /// The draw-phase systems, in registration order.
    pub closed spec fn draw_systems_spec(&self) -> Seq<SystemKind> {
        self.draw_systems@
    }

    /// The frame clock.
    pub closed spec fn state_spec(&self) -> GameState {
        self.state
    }

    /// The id the registry will issue next.
    pub closed spec fn next_id_spec(&self) -> u32 {
        self.next_entity_id
    }

    /// The buffer handle the next upload will use.
    pub closed spec fn next_handle_spec(&self) -> u64 {
        self.next_buffer_handle
    }

    /// Whether an entity with id `e` has been created and not removed.
    pub open spec fn registered(&self, e: EntityId) -> bool {
        exists|i: int| 0 <= i < self.entities_spec().len() && self.entities_spec()[i].id == e
    }

    /// The component of kind `k` owned by `e`, if any.
    pub open spec fn get_spec(&self, e: EntityId, k: ComponentType) -> Option<ComponentTypes> {
        self.storage_spec().get_spec(e, k)
    }

    /// Whether `e` owns a component of kind `k`.
    pub open spec fn has_kind(&self, e: EntityId, k: ComponentType) -> bool {
        self.storage_spec().has_kind(e, k)
    }

    /// Registered ids are distinct and below the registry counter, the
    /// storage is well-formed, and storage rows belong to issued ids.
    pub open spec fn wf(&self) -> bool {
        &&& forall|i: int, j: int|
            0 <= i < j < self.entities_spec().len() ==> self.entities_spec()[i].id
                != self.entities_spec()[j].id
        &&& forall|i: int|
            0 <= i < self.entities_spec().len() ==> #[trigger] self.entities_spec()[i].id
                < self.next_id_spec()
        &&& self.storage_spec().wf()
        &&& forall|i: int|
            0 <= i < self.storage_spec().rows().len()
                ==> #[trigger] self.storage_spec().rows()[i].id < self.next_id_spec()
    }

    /// An empty world: no entities, no components, no systems, clock at
    /// zero, counters at their origins.
    pub fn new() -> (w: World)
        ensures
            w.wf(),
            w.entities_spec().len() == 0,
            w.storage_spec().rows().len() == 0,
            w.update_systems_spec().len() == 0,
            w.draw_systems_spec().len() == 0,
            w.state_spec() == (GameState { total_time: 0, delta_time: 0 }),
            w.next_id_spec() == 0,
            w.next_handle_spec() == 0,
            forall|e: EntityId| !w.registered(e),
            forall|e: EntityId, k: ComponentType| w.get_spec(e, k) is None,
    {
        let w = World {
            entities: Vec::new(),
            component_storage: ComponentStorage::new(),
            update_systems: Vec::new(),
            draw_systems: Vec::new(),
            state: GameState::new(),
            next_entity_id: 0,
            next_buffer_handle: 0,
        };
        proof {
            assert forall|e: EntityId, k: ComponentType| w.get_spec(e, k) is None by {
                assert(w.storage_spec().comps(e) =~= Seq::<ComponentTypes>::empty());
            }
        }
        w
    }

    /// Well-formedness depends only on the entity list, the storage and the
    /// registry counter.
    pub proof fn lemma_wf_preserved(w0: World, w1: World)
        requires
            w0.wf(),
            w1.entities_spec() == w0.entities_spec(),
            w1.storage_spec() == w0.storage_spec(),
            w1.next_id_spec() == w0.next_id_spec(),
        ensures
            w1.wf(),
    {
        assert forall|i: int, j: int|
            0 <= i < j < w1.entities_spec().len() implies w1.entities_spec()[i].id
            != w1.entities_spec()[j].id by {
            assert(w0.entities_spec()[i].id != w0.entities_spec()[j].id);
        }
        assert forall|i: int|
            0 <= i < w1.entities_spec().len() implies #[trigger] w1.entities_spec()[i].id
            < w1.next_id_spec() by {
            assert(w0.entities_spec()[i].id < w0.next_id_spec());
        }
        assert forall|i: int|
            0 <= i < w1.storage_spec().rows().len() implies #[trigger] w1.storage_spec().rows()[i].id
            < w1.next_id_spec() by {
            assert(w0.storage_spec().rows()[i].id < w0.next_id_spec());
        }
    }

    /// The entity-list conjuncts of `wf` carry over unchanged lists.
    pub proof fn lemma_entity_invariants(w0: World, w1: World)
        requires
            w0.wf(),
            w1.entities_spec() == w0.entities_spec(),
            w1.next_id_spec() == w0.next_id_spec(),
        ensures
            forall|i: int, j: int|
                0 <= i < j < w1.entities_spec().len() ==> w1.entities_spec()[i].id
                    != w1.entities_spec()[j].id,
            forall|i: int|
                0 <= i < w1.entities_spec().len() ==> #[trigger] w1.entities_spec()[i].id
                    < w1.next_id_spec(),
    {
        assert forall|i: int, j: int|
            0 <= i < j < w1.entities_spec().len() implies w1.entities_spec()[i].id
            != w1.entities_spec()[j].id by {
            assert(w0.entities_spec()[i].id != w0.entities_spec()[j].id);
        }
        assert forall|i: int|
            0 <= i < w1.entities_spec().len() implies #[trigger] w1.entities_spec()[i].id
            < w1.next_id_spec() by {
            assert(w0.entities_spec()[i].id < w0.next_id_spec());
        }
    }

    /// Registration is a function of the entity list alone.
    pub proof fn lemma_registered_unchanged(w0: World, w1: World)
        requires
            w1.entities_spec() == w0.entities_spec(),
        ensures
            forall|x: EntityId| w1.registered(x) == w0.registered(x),
    {
        assert forall|x: EntityId| w1.registered(x) == w0.registered(x) by {
            if w0.registered(x) {
                let j = choose|j: int|
                    0 <= j < w0.entities_spec().len() && w0.entities_spec()[j].id == x;
                assert(w1.entities_spec()[j].id == x);
            }
            if w1.registered(x) {
                let j = choose|j: int|
                    0 <= j < w1.entities_spec().len() && w1.entities_spec()[j].id == x;
                assert(w0.entities_spec()[j].id == x);
            }
        }
    }

    /// Any index holding id `e` in the entity list is unique under `wf`.
    pub proof fn lemma_entity_unique(&self, e: EntityId, i: int)
        requires
            self.wf(),
            0 <= i < self.entities_spec().len(),
            self.entities_spec()[i].id == e,
        ensures
            self.registered(e),
            forall|j: int|
                0 <= j < self.entities_spec().len() && self.entities_spec()[j].id == e ==> j == i,
    {
        assert forall|j: int|
            0 <= j < self.entities_spec().len() && self.entities_spec()[j].id == e implies j
            == i by {
            if j != i {
                assert(self.entities_spec()[if j < i { j } else { i }].id
                    != self.entities_spec()[if j < i { i } else { j }].id);
            }
        }
    }

    /// Create a fresh entity: issue the next id and register it.
    pub fn create_entity(&mut self) -> (e: EntityId)
        requires
            old(self).wf(),
            old(self).next_id_spec() < u32::MAX,
        ensures
            final(self).wf(),
            e == old(self).next_id_spec(),
            final(self).next_id_spec() == old(self).next_id_spec() + 1,
            final(self).entities_spec() == old(self).entities_spec().push(Entity { id: e }),
            final(self).registered(e),
            !old(self).registered(e),
            !old(self).storage_spec().has_entity(e),
            forall|x: EntityId|
                x != e ==> final(self).registered(x) == old(self).registered(x),
            final(self).storage_spec() == old(self).storage_spec(),
            final(self).update_systems_spec() == old(self).update_systems_spec(),
            final(self).draw_systems_spec() == old(self).draw_systems_spec(),
            final(self).state_spec() == old(self).state_spec(),
            final(self).next_handle_spec() == old(self).next_handle_spec(),
    {
        let entity = Entity::new(&mut self.next_entity_id);
        let e = entity.id;
        self.entities.push(entity);
        proof {
            let n = old(self).entities_spec().len();
            assert(self.entities_spec()[n as int].id == e);
            if old(self).registered(e) {
                let i = choose|i: int|
                    0 <= i < old(self).entities_spec().len() && old(self).entities_spec()[i].id
                        == e;
                assert(old(self).entities_spec()[i].id < old(self).next_id_spec());
            }
            if old(self).storage_spec().has_entity(e) {
                let i = choose|i: int|
                    0 <= i < old(self).storage_spec().rows().len() && old(
                        self,
                    ).storage_spec().rows()[i].id == e;
                assert(old(self).storage_spec().rows()[i].id < old(self).next_id_spec());
            }
            assert forall|x: EntityId| x != e implies self.registered(x) == old(self).registered(
                x,
            ) by {
                lemma_registered_after_push(old(self).entities_spec(), Entity { id: e }, x);
            }
        }
        e
    }

    /// Register an already-built entity record, bumping the registry counter
    /// past its id so the id can never be issued again.  Inserting an id
    /// that is already registered changes nothing: the record is its id.
    pub fn insert_entity(&mut self, entity: Entity)
        requires
            old(self).wf(),
            entity.id < u32::MAX,
        ensures
            final(self).wf(),
            final(self).registered(entity.id),
            !old(self).registered(entity.id) ==> final(self).entities_spec() == old(
                self,
            ).entities_spec().push(entity),
            old(self).registered(entity.id) ==> *final(self) == *old(self),
            forall|x: EntityId|
                x != entity.id ==> final(self).registered(x) == old(self).registered(x),
            final(self).storage_spec() == old(self).storage_spec(),
            final(self).update_systems_spec() == old(self).update_systems_spec(),
            final(self).draw_systems_spec() == old(self).draw_systems_spec(),
            final(self).state_spec() == old(self).state_spec(),
            final(self).next_handle_spec() == old(self).next_handle_spec(),
            !old(self).registered(entity.id) ==> final(self).next_id_spec() as int == if entity.id
                >= old(self).next_id_spec() {
                entity.id + 1
            } else {
                old(self).next_id_spec() as int
            },
    {
        match self.find_entity(entity.id) {
            Some(_) => {},
            None => {
                if entity.id >= self.next_entity_id {
                    self.next_entity_id = entity.id + 1;
                }
                self.entities.push(entity);
                proof {
                    let n = old(self).entities_spec().len();
                    assert(self.entities_spec()[n as int].id == entity.id);
                    assert forall|x: EntityId|
                        x != entity.id implies self.registered(x) == old(self).registered(x) by {
                        lemma_registered_after_push(old(self).entities_spec(), entity, x);
                    }
                }
            },
        }
    }

    /// Attach a component to a registered entity.  The caller upholds the
    /// one-per-kind invariant: the entity must not already own the kind.
    pub fn add_component(&mut self, entity: EntityId, component: ComponentTypes)
        requires
            old(self).wf(),
            old(self).registered(entity),
            !old(self).has_kind(entity, kind_of(component)),
        ensures
            final(self).wf(),
            final(self).get_spec(entity, kind_of(component)) == Some(component),
            final(self).has_kind(entity, kind_of(component)),
            forall|k2: ComponentType|
                k2 != kind_of(component) ==> final(self).get_spec(entity, k2) == old(
                    self,
                ).get_spec(entity, k2),
            forall|x: EntityId|
                x != entity ==> final(self).storage_spec().comps(x) == old(
                    self,
                ).storage_spec().comps(x) && final(self).storage_spec().has_entity(x) == old(
                    self,
                ).storage_spec().has_entity(x),
            final(self).entities_spec() == old(self).entities_spec(),
            final(self).update_systems_spec() == old(self).update_systems_spec(),
            final(self).draw_systems_spec() == old(self).draw_systems_spec(),
            final(self).state_spec() == old(self).state_spec(),
            final(self).next_id_spec() == old(self).next_id_spec(),
            final(self).next_handle_spec() == old(self).next_handle_spec(),
            forall|x: EntityId| final(self).registered(x) == old(self).registered(x),
    {
        let ghost k = kind_of(component);
        let ghost old_comps = self.component_storage.comps(entity);
        proof {
            let i = choose|i: int|
                0 <= i < old(self).entities_spec().len() && old(self).entities_spec()[i].id
                    == entity;
            assert(old(self).entities_spec()[i].id < old(self).next_id_spec());
        }
        self.component_storage.add_component(entity, component);
        proof {
            let s2 = self.component_storage.comps(entity);
            assert(s2 == old_comps.push(component));
            crate::storage::lemma_comp_unique(s2, k, old_comps.len() as int);
            assert forall|k2: ComponentType|
                k2 != k implies crate::storage::comp_of(s2, k2) == crate::storage::comp_of(
                old_comps,
                k2,
            ) by {
                crate::storage::lemma_push_preserves_other_kinds(old_comps, component, k2);
            }
            assert forall|i: int|
                0 <= i < self.component_storage.rows().len() implies #[trigger] self
                .component_storage.rows()[i].id < self.next_entity_id by {
                lemma_row_ids_bounded(
                    old(self).storage_spec(),
                    self.component_storage,
                    entity,
                    self.next_entity_id,
                    i,
                );
            }
            World::lemma_registered_unchanged(*old(self), *self);
        }
    }

    /// Detach the component of kind `k` from `entity`; a no-op when the
    /// entity owns none.
    pub fn remove_component(&mut self, entity: EntityId, component_type: ComponentType)
        requires
            old(self).wf(),
        ensures
            final(self).wf(),
            final(self).get_spec(entity, component_type) is None,
            !final(self).has_kind(entity, component_type),
            forall|k2: ComponentType|
                k2 != component_type ==> final(self).get_spec(entity, k2) == old(self).get_spec(
                    entity,
                    k2,
                ),
            forall|x: EntityId|
                x != entity ==> final(self).storage_spec().comps(x) == old(
                    self,
                ).storage_spec().comps(x) && final(self).storage_spec().has_entity(x) == old(
                    self,
                ).storage_spec().has_entity(x),
            final(self).entities_spec() == old(self).entities_spec(),
            final(self).update_systems_spec() == old(self).update_systems_spec(),
            final(self).draw_systems_spec() == old(self).draw_systems_spec(),
            final(self).state_spec() == old(self).state_spec(),
            final(self).next_id_spec() == old(self).next_id_spec(),
            final(self).next_handle_spec() == old(self).next_handle_spec(),
    {
        self.component_storage.remove_component(entity, component_type);
        proof {
            World::lemma_entity_invariants(*old(self), *self);
            assert forall|i: int|
                0 <= i < self.component_storage.rows().len() implies #[trigger] self
                .component_storage.rows()[i].id < self.next_entity_id by {
                lemma_row_ids_bounded(
                    old(self).storage_spec(),
                    self.component_storage,
                    entity,
                    self.next_entity_id,
                    i,
                );
            }
        }
    }

    /// The index of `entity` in the entity list, searching front to back.
    fn find_entity(&self, entity: EntityId) -> (r: Option<usize>)
        ensures
            match r {
                Some(i) => i < self.entities_spec().len() && self.entities_spec()[i as int].id
                    == entity,
                None => !self.registered(entity),
            },
    {
        let mut i: usize = 0;
        while i < self.entities.len()
            invariant
                i <= self.entities_spec().len(),
                forall|j: int| 0 <= j < i ==> self.entities_spec()[j].id != entity,
            decreases self.entities_spec().len() - i,
        {
            if self.entities[i].id == entity {
                return Some(i);
            }
            i = i + 1;
        }
        None
    }

    /// Remove an entity and, atomically, every component it owns.
    pub fn remove_entity(&mut self, entity: EntityId)
        requires
            old(self).wf(),
        ensures
            final(self).wf(),
            !final(self).registered(entity),
            forall|k: ComponentType| final(self).get_spec(entity, k) is None,
            forall|x: EntityId|
                x != entity ==> final(self).registered(x) == old(self).registered(x),
            forall|x: EntityId|
                x != entity ==> final(self).storage_spec().comps(x) == old(
                    self,
                ).storage_spec().comps(x) && final(self).storage_spec().has_entity(x) == old(
                    self,
                ).storage_spec().has_entity(x),
            final(self).update_systems_spec() == old(self).update_systems_spec(),
            final(self).draw_systems_spec() == old(self).draw_systems_spec(),
            final(self).state_spec() == old(self).state_spec(),
            final(self).next_id_spec() == old(self).next_id_spec(),
            final(self).next_handle_spec() == old(self).next_handle_spec(),
    {
        let ghost old_self = *old(self);
        self.component_storage.remove_entity(entity);
        let ghost mid = *self;
        proof {
            assert forall|i2: int|
                0 <= i2 < mid.storage_spec().rows().len() implies #[trigger] mid.storage_spec(
            ).rows()[i2].id < mid.next_id_spec() by {
                lemma_row_ids_bounded(
                    old_self.storage_spec(),
                    mid.storage_spec(),
                    entity,
                    mid.next_id_spec(),
                    i2,
                );
            }
        }
        match self.find_entity(entity) {
            Some(i) => {
                proof {
                    old_self.lemma_entity_unique(entity, i as int);
                }
                let _ = self.entities.remove(i);
                proof {
                    let w2 = *self;
                    assert(w2.entities_spec() == old_self.entities_spec().remove(i as int));
                    assert(old_self.entities_spec()[i as int].id == entity);
                    assert forall|x: EntityId| x != entity implies w2.registered(x)
                        == old_self.registered(x) by {
                        lemma_registered_after_remove(
                            old_self.entities_spec(),
                            w2.entities_spec(),
                            i as int,
                            x,
                        );
                    }
                    assert(forall|x: EntityId|
                        x != entity ==> self.registered(x) == old_self.registered(x));
                    let s1 = old_self.entities_spec();
                    let s2 = self.entities_spec();
                    assert forall|a: int, b: int|
                        0 <= a < b < s2.len() implies s2[a].id != s2[b].id by {
                        let a0 = if a < i { a } else { a + 1 };
                        let b0 = if b < i { b } else { b + 1 };
                        assert(s1[a0].id != s1[b0].id);
                    }
                    assert forall|a: int|
                        0 <= a < s2.len() implies #[trigger] s2[a].id < self.next_id_spec() by {
                        let a0 = if a < i { a } else { a + 1 };
                        assert(s1[a0].id < old_self.next_id_spec());
                    }
                    assert(self.storage_spec() == mid.storage_spec());
                    assert forall|i2: int|
                        0 <= i2 < self.storage_spec().rows().len() implies #[trigger] self
                    .storage_spec().rows()[i2].id < self.next_id_spec() by {
                        assert(mid.storage_spec().rows()[i2].id < mid.next_id_spec());
                    }
                    if self.registered(entity) {
                        let j = choose|j: int|
                            0 <= j < self.entities@.len() && self.entities@[j].id == entity;
                        let j0 = if j < i { j } else { j + 1 };
                        assert(old_self.entities_spec()[j0].id == entity);
                    }
                }
            },
            None => {
                proof {
                    assert forall|x: EntityId| x != entity implies self.registered(x)
                        == old_self.registered(x) by {
                        assert(self.entities_spec() == old_self.entities_spec());
                    }
                    World::lemma_entity_invariants(old_self, *self);
                    assert forall|i2: int|
                        0 <= i2 < self.storage_spec().rows().len() implies #[trigger] self
                    .storage_spec().rows()[i2].id < self.next_id_spec() by {
                        assert(mid.storage_spec().rows()[i2].id < mid.next_id_spec());
                    }
                }
            },
        }
    }

    /// A shared reference to the component of kind `k` owned by `entity`.
    pub fn get(&self, entity: EntityId, component_type: ComponentType) -> (r: Option<
        &ComponentTypes,
    >)
        requires
            self.wf(),
        ensures
            match r {
                Some(c) => self.get_spec(entity, component_type) == Some(*c),
                None => self.get_spec(entity, component_type) is None,
            },
    {
        self.component_storage.get_component(entity, component_type)
    }

    /// Detach and return the component of kind `k` owned by `entity`, for
    /// read-modify-write; pair with `add_component` to put it back.
    pub fn take_component(&mut self, entity: EntityId, component_type: ComponentType) -> (r:
        Option<ComponentTypes>)
        requires
            old(self).wf(),
        ensures
            final(self).wf(),
            r == old(self).get_spec(entity, component_type),
            final(self).get_spec(entity, component_type) is None,
            forall|k2: ComponentType|
                k2 != component_type ==> final(self).get_spec(entity, k2) == old(self).get_spec(
                    entity,
                    k2,
                ),
            forall|x: EntityId|
                x != entity ==> final(self).storage_spec().comps(x) == old(
                    self,
                ).storage_spec().comps(x) && final(self).storage_spec().has_entity(x) == old(
                    self,
                ).storage_spec().has_entity(x),
            final(self).entities_spec() == old(self).entities_spec(),
            final(self).update_systems_spec() == old(self).update_systems_spec(),
            final(self).draw_systems_spec() == old(self).draw_systems_spec(),
            final(self).state_spec() == old(self).state_spec(),
            final(self).next_id_spec() == old(self).next_id_spec(),
            final(self).next_handle_spec() == old(self).next_handle_spec(),
    {
        let r = self.component_storage.take_component(entity, component_type);
        proof {
            World::lemma_entity_invariants(*old(self), *self);
            assert forall|i: int|
                0 <= i < self.component_storage.rows().len() implies #[trigger] self
                .component_storage.rows()[i].id < self.next_entity_id by {
                lemma_row_ids_bounded(
                    old(self).storage_spec(),
                    self.component_storage,
                    entity,
                    self.next_entity_id,
                    i,
                );
            }
        }
        r
    }

    /// Replace the component of the same kind as `component` owned by
    /// `entity`, in place; a no-op when the entity owns no such component.
    pub fn replace_component(&mut self, entity: EntityId, component: ComponentTypes)
        requires
            old(self).wf(),
        ensures
            final(self).wf(),
            old(self).has_kind(entity, kind_of(component)) ==> final(self).get_spec(
                entity,
                kind_of(component),
            ) == Some(component),
            !old(self).has_kind(entity, kind_of(component)) ==> final(self).storage_spec() == old(
                self,
            ).storage_spec(),
            forall|k2: ComponentType|
                k2 != kind_of(component) ==> final(self).get_spec(entity, k2) == old(
                    self,
                ).get_spec(entity, k2),
            forall|x: EntityId|
                x != entity ==> final(self).storage_spec().comps(x) == old(
                    self,
                ).storage_spec().comps(x) && final(self).storage_spec().has_entity(x) == old(
                    self,
                ).storage_spec().has_entity(x),
            final(self).storage_spec().has_entity(entity) == old(self).storage_spec().has_entity(
                entity,
            ),
            final(self).entities_spec() == old(self).entities_spec(),
            final(self).update_systems_spec() == old(self).update_systems_spec(),
            final(self).draw_systems_spec() == old(self).draw_systems_spec(),
            final(self).state_spec() == old(self).state_spec(),
            final(self).next_id_spec() == old(self).next_id_spec(),
            final(self).next_handle_spec() == old(self).next_handle_spec(),
    {
        self.component_storage.replace_component(entity, component);
        proof {
            World::lemma_entity_invariants(*old(self), *self);
            assert forall|i: int|
                0 <= i < self.component_storage.rows().len() implies #[trigger] self
            .component_storage.rows()[i].id < self.next_entity_id by {
                assert(old(self).storage_spec().rows()[i].id < old(self).next_id_spec());
            }
        }
    }

    /// The components of `entity` whose kinds are in `kinds`, detached and
    /// returned by value, in input kind order; kinds the entity does not
    /// own are simply absent from the result.  This is the multi-kind
    /// mutable fetch: because the requested kinds are pairwise distinct,
    /// the returned components can never alias one another.  Mutate them
    /// and put each back with `add_component`.
    pub fn take_components(&mut self, entity: EntityId, kinds: &Vec<ComponentType>) -> (r: Vec<
        ComponentTypes,
    >)
        requires
            old(self).wf(),
            forall|i: int, j: int| 0 <= i < j < kinds@.len() ==> kinds@[i] != kinds@[j],
        ensures
            final(self).wf(),
            r@ == taken_components_spec(*old(self), entity, kinds@),
            forall|i: int|
                0 <= i < kinds@.len() ==> final(self).get_spec(entity, kinds@[i]) is None,
            forall|k2: ComponentType|
                !kinds@.contains(k2) ==> final(self).get_spec(entity, k2) == old(self).get_spec(
                    entity,
                    k2,
                ),
            forall|x: EntityId|
                x != entity ==> final(self).storage_spec().comps(x) == old(
                    self,
                ).storage_spec().comps(x) && final(self).storage_spec().has_entity(x) == old(
                    self,
                ).storage_spec().has_entity(x),
            final(self).entities_spec() == old(self).entities_spec(),
            final(self).update_systems_spec() == old(self).update_systems_spec(),
            final(self).draw_systems_spec() == old(self).draw_systems_spec(),
            final(self).state_spec() == old(self).state_spec(),
            final(self).next_id_spec() == old(self).next_id_spec(),
            final(self).next_handle_spec() == old(self).next_handle_spec(),
    {
        let ghost w0 = *old(self);
        let mut r: Vec<ComponentTypes> = Vec::new();
        let mut i: usize = 0;
        while i < kinds.len()
            invariant
                self.wf(),
                w0.wf(),
                i <= kinds@.len(),
                forall|a: int, b: int| 0 <= a < b < kinds@.len() ==> kinds@[a] != kinds@[b],
                r@ == taken_components_spec(w0, entity, kinds@.subrange(0, i as int)),
                forall|a: int| 0 <= a < i ==> self.get_spec(entity, kinds@[a]) is None,
                forall|k2: ComponentType|
                    !kinds@.subrange(0, i as int).contains(k2) ==> self.get_spec(entity, k2)
                        == w0.get_spec(entity, k2),
                forall|x: EntityId|
                    x != entity ==> self.storage_spec().comps(x) == w0.storage_spec().comps(x)
                        && self.storage_spec().has_entity(x) == w0.storage_spec().has_entity(x),
                self.entities_spec() == w0.entities_spec(),
                self.update_systems_spec() == w0.update_systems_spec(),
                self.draw_systems_spec() == w0.draw_systems_spec(),
                self.state_spec() == w0.state_spec(),
                self.next_id_spec() == w0.next_id_spec(),
                self.next_handle_spec() == w0.next_handle_spec(),
            decreases kinds@.len() - i,
        {
            let k = kinds[i];
            proof {
                assert(!kinds@.subrange(0, i as int).contains(k));
                assert(self.get_spec(entity, k) == w0.get_spec(entity, k));
            }
            let ghost w_pre = *self;
            match self.take_component(entity, k) {
                Some(c) => {
                    r.push(c);
                },
                None => {},
            }
            proof {
                let pre = kinds@.subrange(0, i as int);
                let cur = kinds@.subrange(0, i + 1);
                assert(cur.drop_last() =~= pre);
                assert(cur.last() == kinds@[i as int]);
                lemma_taken_components_snoc(w0, entity, pre, k);
                assert(r@ =~= taken_components_spec(w0, entity, cur));
                assert forall|k2: ComponentType|
                    !cur.contains(k2) implies self.get_spec(entity, k2) == w0.get_spec(
                    entity,
                    k2,
                ) by {
                    assert(!pre.contains(k2));
                    assert(k2 != k);
                    assert(w_pre.get_spec(entity, k2) == w0.get_spec(entity, k2));
                }
                assert forall|a: int|
                    0 <= a < i + 1 implies self.get_spec(entity, kinds@[a]) is None by {
                    if a < i {
                        assert(kinds@[a] != k);
                        assert(w_pre.get_spec(entity, kinds@[a]) is None);
                    }
                }
            }
            i = i + 1;
        }
        proof {
            assert(kinds@.subrange(0, kinds@.len() as int) =~= kinds@);
        }
        r
    }

    /// The entities owning every kind in `required`, in creation order.
    pub fn query(&self, required: &Vec<ComponentType>) -> (r: Vec<EntityId>)
        requires
            self.wf(),
        ensures
            r@ == self.query_spec(required@),
    {
        let mut r: Vec<EntityId> = Vec::new();
        let mut i: usize = 0;
        while i < self.entities.len()
            invariant
                self.wf(),
                i <= self.entities_spec().len(),
                r@ == query_rec(
                    self.entities_spec().subrange(0, i as int),
                    self.storage_spec(),
                    required@,
                ),
            decreases self.entities_spec().len() - i,
        {
            let e = self.entities[i].id;
            if self.component_storage.has_all(e, required) {
                r.push(e);
            }
            proof {
                let pre = self.entities_spec().subrange(0, i as int);
                let cur = self.entities_spec().subrange(0, i + 1);
                assert(cur.drop_last() =~= pre);
                assert(cur.last() == self.entities_spec()[i as int]);
            }
            i = i + 1;
        }
        proof {
            assert(self.entities_spec().subrange(0, self.entities_spec().len() as int)
                =~= self.entities_spec());
        }
        r
    }

    /// The entities `query` returns for the given requirement.
    pub open spec fn query_spec(&self, required: Seq<ComponentType>) -> Seq<EntityId> {
        query_rec(self.entities_spec(), self.storage_spec(), required)
    }

    /// Advance the frame clock: record the delta and accumulate the total.
    pub fn advance(&mut self, delta_time: i64)
        requires
            old(self).wf(),
            delta_time >= 0,
            old(self).state_spec().total_time + delta_time <= i64::MAX,
        ensures
            final(self).wf(),
            final(self).state_spec() == (GameState {
                total_time: (old(self).state_spec().total_time + delta_time) as i64,
                delta_time,
            }),
            final(self).entities_spec() == old(self).entities_spec(),
            final(self).storage_spec() == old(self).storage_spec(),
            final(self).update_systems_spec() == old(self).update_systems_spec(),
            final(self).draw_systems_spec() == old(self).draw_systems_spec(),
            final(self).next_id_spec() == old(self).next_id_spec(),
            final(self).next_handle_spec() == old(self).next_handle_spec(),
    {
        self.state.update(delta_time);
        proof {
            World::lemma_wf_preserved(*old(self), *self);
        }
    }

    /// Append a system to the update phase; registration order is execution
    /// order.
    pub fn add_update_system(&mut self, system: SystemKind)
        requires
            old(self).wf(),
        ensures
            final(self).wf(),
            final(self).update_systems_spec() == old(self).update_systems_spec().push(system),
            final(self).draw_systems_spec() == old(self).draw_systems_spec(),
            final(self).entities_spec() == old(self).entities_spec(),
            final(self).storage_spec() == old(self).storage_spec(),
            final(self).state_spec() == old(self).state_spec(),
            final(self).next_id_spec() == old(self).next_id_spec(),
            final(self).next_handle_spec() == old(self).next_handle_spec(),
            forall|x: EntityId| final(self).registered(x) == old(self).registered(x),
    {
        self.update_systems.push(system);
        proof {
            World::lemma_wf_preserved(*old(self), *self);
            World::lemma_registered_unchanged(*old(self), *self);
        }
    }

    /// Append a system to the draw phase; registration order is execution
    /// order.
    pub fn add_draw_system(&mut self, system: SystemKind)
        requires
            old(self).wf(),
        ensures
            final(self).wf(),
            final(self).draw_systems_spec() == old(self).draw_systems_spec().push(system),
            final(self).update_systems_spec() == old(self).update_systems_spec(),
            final(self).entities_spec() == old(self).entities_spec(),
            final(self).storage_spec() == old(self).storage_spec(),
            final(self).state_spec() == old(self).state_spec(),
            final(self).next_id_spec() == old(self).next_id_spec(),
            final(self).next_handle_spec() == old(self).next_handle_spec(),
            forall|x: EntityId| final(self).registered(x) == old(self).registered(x),
    {
        self.draw_systems.push(system);
        proof {
            World::lemma_wf_preserved(*old(self), *self);
            World::lemma_registered_unchanged(*old(self), *self);
        }
    }

    /// Populate the demo scene: a broad flat ground quad and a cube that
    /// falls onto it, with the buffering, movement and collision systems in
    /// the update phase and the mesh renderer in the draw phase.
    pub fn test_world(&mut self)
        requires
            old(self).wf(),
            old(self).next_id_spec() + 2 <= u32::MAX,
        ensures
            final(self).wf(),
            final(self).next_id_spec() == old(self).next_id_spec() + 2,
            final(self).registered(old(self).next_id_spec()),
            final(self).registered((old(self).next_id_spec() + 1) as u32),
            ground_scene_entity(*final(self), old(self).next_id_spec()),
            cube_scene_entity(*final(self), (old(self).next_id_spec() + 1) as u32),
            final(self).update_systems_spec() == old(self).update_systems_spec().push(
                SystemKind::MeshBuffer(crate::systems::MeshBufferer {}),
            ).push(SystemKind::Movement(crate::systems::MovementSystem {})).push(
                SystemKind::Collision(crate::systems::CollisionSystem {}),
            ),
            final(self).draw_systems_spec() == old(self).draw_systems_spec().push(
                SystemKind::MeshDraw(crate::systems::MeshRenderer {}),
            ),
            final(self).state_spec() == old(self).state_spec(),
            final(self).next_handle_spec() == old(self).next_handle_spec(),
    {
        let ground_entity = self.create_entity();
        proof {
            lemma_no_row_no_kinds(*self, ground_entity);
        }
        let (vertices, indices) = crate::geometry::get_ground_quad();
        self.add_component(
            ground_entity,
            ComponentTypes::Mesh(crate::components::MeshComponent::new(vertices, indices)),
        );
        proof {
            assert(self.get_spec(ground_entity, ComponentType::Transform) is None);
        }
        self.add_component(
            ground_entity,
            ComponentTypes::Transform(
                crate::components::TransformComponent::new(
                    crate::geometry::Vector3 { x: 0, y: -2_000_000, z: 0 },
                    crate::geometry::Vector3 { x: 0, y: 0, z: 0 },
                    crate::geometry::Vector3 {
                        x: 20_000_000,
                        y: 20_000_000,
                        z: 20_000_000,
                    },
                ),
            ),
        );
        let ghost w_ground = *self;
        let cube_entity = self.create_entity();
        proof {
            lemma_no_row_no_kinds(*self, cube_entity);
            assert(cube_entity != ground_entity);
            assert(self.storage_spec().comps(ground_entity) == w_ground.storage_spec().comps(
                ground_entity,
            ));
        }
        let (vertices, indices) = crate::geometry::get_cube();
        self.add_component(
            cube_entity,
            ComponentTypes::Mesh(crate::components::MeshComponent::new(vertices, indices)),
        );
        proof {
            assert(self.get_spec(cube_entity, ComponentType::Transform) is None);
            assert(self.storage_spec().comps(ground_entity) == w_ground.storage_spec().comps(
                ground_entity,
            ));
        }
        self.add_component(
            cube_entity,
            ComponentTypes::Transform(
                crate::components::TransformComponent::new(
                    crate::geometry::Vector3 { x: 0, y: 500_000, z: -500_000 },
                    crate::geometry::Vector3 { x: 0, y: 0, z: 0 },
                    crate::geometry::Vector3 {
                        x: crate::fixed::FX_ONE,
                        y: crate::fixed::FX_ONE,
                        z: crate::fixed::FX_ONE,
                    },
                ),
            ),
        );
        proof {
            assert(self.get_spec(cube_entity, ComponentType::Movement) is None);
            assert(self.storage_spec().comps(ground_entity) == w_ground.storage_spec().comps(
                ground_entity,
            ));
        }
        self.add_component(
            cube_entity,
            ComponentTypes::Movement(
                crate::components::MovementComponent::new(
                    crate::geometry::Vector3 { x: 0, y: -crate::fixed::FX_ONE, z: 0 },
                    crate::geometry::Vector3 { x: 0, y: 0, z: 0 },
                ),
            ),
        );
        let ghost w_cube = *self;
        proof {
            assert(self.storage_spec().comps(ground_entity) == w_ground.storage_spec().comps(
                ground_entity,
            ));
        }
        self.add_update_system(SystemKind::MeshBuffer(crate::systems::MeshBufferer {}));
        self.add_update_system(SystemKind::Movement(crate::systems::MovementSystem {}));
        self.add_update_system(SystemKind::Collision(crate::systems::CollisionSystem {}));
        self.add_draw_system(SystemKind::MeshDraw(crate::systems::MeshRenderer {}));
        proof {
            assert(self.storage_spec() == w_cube.storage_spec());
            assert(ground_scene_entity(w_ground, ground_entity));
            assert(self.storage_spec().comps(ground_entity) == w_ground.storage_spec().comps(
                ground_entity,
            ));
            assert(self.get_spec(ground_entity, ComponentType::Mesh) == w_ground.get_spec(
                ground_entity,
                ComponentType::Mesh,
            ));
            assert(self.get_spec(ground_entity, ComponentType::Transform) == w_ground.get_spec(
                ground_entity,
                ComponentType::Transform,
            ));
            assert(self.get_spec(ground_entity, ComponentType::Movement) == w_ground.get_spec(
                ground_entity,
                ComponentType::Movement,
            ));
            assert(self.get_spec(ground_entity, ComponentType::Collider) == w_ground.get_spec(
                ground_entity,
                ComponentType::Collider,
            ));
            assert(ground_scene_entity(*self, ground_entity));
            assert(cube_scene_entity(w_cube, cube_entity));
            assert(cube_scene_entity(*self, cube_entity));
        }
    }

    /// The registered entities.
    pub fn entities(&self) -> (r: &Vec<Entity>)
        ensures
            r@ == self.entities_spec(),
    {
        &self.entities
    }

    /// The component storage.
    pub fn component_storage(&self) -> (r: &ComponentStorage)
        ensures
            *r == self.storage_spec(),
    {
        &self.component_storage
    }

    /// Mutable access to the component storage.  The rest of the world is
    /// untouched for as long as the borrow lives.
    pub fn component_storage_mut(&mut self) -> (r: &mut ComponentStorage)
        ensures
            *r == old(self).storage_spec(),
            final(self).storage_spec() == *final(r),
            final(self).entities_spec() == old(self).entities_spec(),
            final(self).update_systems_spec() == old(self).update_systems_spec(),
            final(self).draw_systems_spec() == old(self).draw_systems_spec(),
            final(self).state_spec() == old(self).state_spec(),
            final(self).next_id_spec() == old(self).next_id_spec(),
            final(self).next_handle_spec() == old(self).next_handle_spec(),
    {
        &mut self.component_storage
    }

    /// The update-phase systems.
    pub fn update_systems(&self) -> (r: &Vec<SystemKind>)
        ensures
            r@ == self.update_systems_spec(),
    {
        &self.update_systems
    }

    /// The draw-phase systems.
    pub fn draw_systems(&self) -> (r: &Vec<SystemKind>)
        ensures
            r@ == self.draw_systems_spec(),
    {
        &self.draw_systems
    }

    /// The buffer handle the next upload will use.
    pub fn next_buffer_handle(&self) -> (h: u64)
        ensures
            h == self.next_handle_spec(),
    {
        self.next_buffer_handle
    }

    /// Reserve the next pair of buffer handles for one mesh upload.
    pub fn allocate_buffer_handles(&mut self) -> (pair: (u64, u64))
        requires
            old(self).wf(),
            old(self).next_handle_spec() + 2 <= u64::MAX,
        ensures
            final(self).wf(),
            pair.0 == old(self).next_handle_spec(),
            pair.1 == old(self).next_handle_spec() + 1,
            final(self).next_handle_spec() == old(self).next_handle_spec() + 2,
            final(self).entities_spec() == old(self).entities_spec(),
            final(self).storage_spec() == old(self).storage_spec(),
            final(self).update_systems_spec() == old(self).update_systems_spec(),
            final(self).draw_systems_spec() == old(self).draw_systems_spec(),
            final(self).state_spec() == old(self).state_spec(),
            final(self).next_id_spec() == old(self).next_id_spec(),
    {
        let h = self.next_buffer_handle;
        self.next_buffer_handle = h + 2;
        proof {
            World::lemma_wf_preserved(*old(self), *self);
        }
        (h, h + 1)
    }

    /// The frame clock, by value.
    pub fn frame_state(&self) -> (s: GameState)
        ensures
            s == self.state_spec(),
    {
        self.state
    }

    /// Mutable access to the frame clock.  The rest of the world is
    /// untouched for as long as the borrow lives.
    pub fn state(&mut self) -> (r: &mut GameState)
        ensures
            *r == old(self).state_spec(),
            final(self).state_spec() == *final(r),
            final(self).entities_spec() == old(self).entities_spec(),
            final(self).storage_spec() == old(self).storage_spec(),
            final(self).update_systems_spec() == old(self).update_systems_spec(),
            final(self).draw_systems_spec() == old(self).draw_systems_spec(),
            final(self).next_id_spec() == old(self).next_id_spec(),
            final(self).next_handle_spec() == old(self).next_handle_spec(),
    {
        &mut self.state
    }
}

/// The result of a query over the given entity list: the ids, in list
/// order, whose owner holds every kind in `required`.
pub open spec fn query_rec(
    entities: Seq<Entity>,
    storage: ComponentStorage,
    required: Seq<ComponentType>,
) -> Seq<EntityId>
    decreases entities.len(),
{
    if entities.len() == 0 {
        Seq::empty()
    } else {
        let prefix = query_rec(entities.drop_last(), storage, required);
        if storage.has_all_spec(entities.last().id, required) {
            prefix.push(entities.last().id)
        } else {
            prefix
        }
    }
}

/// An id is in a query result exactly when it is in the entity list and its
/// owner holds every required kind.
pub proof fn lemma_query_rec_contains(
    entities: Seq<Entity>,
    storage: ComponentStorage,
    required: Seq<ComponentType>,
    e: EntityId,
)
    ensures
        query_rec(entities, storage, required).contains(e) <==> ((exists|i: int|
            0 <= i < entities.len() && entities[i].id == e) && storage.has_all_spec(e, required)),
    decreases entities.len(),
{
    if entities.len() == 0 {
    } else {
        lemma_query_rec_contains(entities.drop_last(), storage, required, e);
        let prefix = query_rec(entities.drop_last(), storage, required);
        let q = query_rec(entities, storage, required);
        if q.contains(e) {
            let w = choose|w: int| 0 <= w < q.len() && q[w] == e;
            if w < prefix.len() {
                assert(prefix.contains(e));
            } else {
                assert(e == entities.last().id);
                assert(entities[entities.len() - 1].id == e);
            }
        }
        if (exists|i: int| 0 <= i < entities.len() && entities[i].id == e)
            && storage.has_all_spec(e, required) {
            let i = choose|i: int| 0 <= i < entities.len() && entities[i].id == e;
            if i < entities.len() - 1 {
                assert(entities.drop_last()[i].id == e);
                assert(prefix.contains(e));
                let w = choose|w: int| 0 <= w < prefix.len() && prefix[w] == e;
                assert(q[w] == e);
            } else {
                assert(q.last() == e);
            }
            assert(q.contains(e));
        }
    }
}

/// Row ids of a storage derived from a bounded one by touching only the
/// bounded id `e` stay bounded.
proof fn lemma_row_ids_bounded(
    s1: ComponentStorage,
    s2: ComponentStorage,
    e: EntityId,
    bound: u32,
    i: int,
)
    requires
        forall|j: int| 0 <= j < s1.rows().len() ==> #[trigger] s1.rows()[j].id < bound,
        s2.has_entity(e) ==> e < bound || s1.has_entity(e),
        0 <= i < s2.rows().len(),
        forall|x: EntityId| x != e ==> s2.has_entity(x) == s1.has_entity(x),
    ensures
        s2.rows()[i].id < bound,
{
    let id = s2.rows()[i].id;
    assert(s2.has_entity(id));
    if id != e || s1.has_entity(id) {
        assert(s1.has_entity(id));
        let j2 = choose|j2: int| 0 <= j2 < s1.rows().len() && s1.rows()[j2].id == id;
        assert(s1.rows()[j2].id < bound);
    }
}

/// An id is in a query result exactly when it is registered and owns every
/// required kind.
pub proof fn lemma_query_membership(w: World, required: Seq<ComponentType>, e: EntityId)
    ensures
        w.query_spec(required).contains(e) <==> (w.registered(e) && w.storage_spec().has_all_spec(
            e,
            required,
        )),
{
    lemma_query_rec_contains(w.entities_spec(), w.storage_spec(), required, e);
}

/// An entity that owns kind `k` — as it does right after `add_component` of
/// a component of kind `k` — appears in the query for `{k}`.
pub proof fn lemma_added_kind_queried(w: World, e: EntityId, k: ComponentType)
    requires
        w.registered(e),
        w.has_kind(e, k),
    ensures
        w.query_spec(seq![k]).contains(e),
{
    lemma_query_membership(w, seq![k], e);
    assert forall|i: int| 0 <= i < seq![k].len() implies w.has_kind(e, seq![k][i]) by {
        assert(seq![k][0] == k);
    }
}

/// An entity that owns no component of kind `k` — as it does right after
/// `remove_component` of kind `k` — appears in no query for `{k}`.
pub proof fn lemma_removed_kind_not_queried(w: World, e: EntityId, k: ComponentType)
    requires
        !w.has_kind(e, k),
    ensures
        !w.query_spec(seq![k]).contains(e),
{
    lemma_query_membership(w, seq![k], e);
    assert(seq![k][0] == k);
}

/// An entity that is not registered — as it is right after `remove_entity`
/// — appears in no query result, whatever the requirement.
pub proof fn lemma_removed_entity_not_queried(w: World, e: EntityId)
    requires
        !w.registered(e),
    ensures
        forall|required: Seq<ComponentType>| !w.query_spec(required).contains(e),
{
    assert forall|required: Seq<ComponentType>| !w.query_spec(required).contains(e) by {
        lemma_query_membership(w, required, e);
    }
}

/// The empty query returns exactly the entities that have been created and
/// not removed.
pub proof fn lemma_empty_query_is_registry(w: World, e: EntityId)
    ensures
        w.query_spec(Seq::empty()).contains(e) <==> w.registered(e),
{
    lemma_query_membership(w, Seq::empty(), e);
}

/// A query for two kinds holds exactly the entities in both single-kind
/// queries: the intersection, never a superset or subset.
pub proof fn lemma_query_intersection(w: World, k1: ComponentType, k2: ComponentType, e: EntityId)
    ensures
        w.query_spec(seq![k1, k2]).contains(e) <==> (w.query_spec(seq![k1]).contains(e)
            && w.query_spec(seq![k2]).contains(e)),
{
    lemma_query_membership(w, seq![k1, k2], e);
    lemma_query_membership(w, seq![k1], e);
    lemma_query_membership(w, seq![k2], e);
    let pair = seq![k1, k2];
    assert(pair[0] == k1 && pair[1] == k2);
    assert(seq![k1][0] == k1);
    assert(seq![k2][0] == k2);
    if w.storage_spec().has_all_spec(e, seq![k1]) && w.storage_spec().has_all_spec(e, seq![k2]) {
        assert forall|i: int| 0 <= i < pair.len() implies w.has_kind(e, pair[i]) by {
            if i == 0 {
                assert(w.has_kind(e, seq![k1][0]));
            } else {
                assert(w.has_kind(e, seq![k2][0]));
            }
        }
    }
}

/// Every registered id lies below the registry counter, so each freshly
/// created id is strictly greater than every id created before it: ids are
/// pairwise distinct and monotonically increasing.
pub proof fn lemma_fresh_id_exceeds_registered(w: World, i: int)
    requires
        w.wf(),
        0 <= i < w.entities_spec().len(),
    ensures
        w.entities_spec()[i].id < w.next_id_spec(),
{
}

/// Appending an entity does not change whether any other id is registered.
proof fn lemma_registered_after_push(entities: Seq<Entity>, e: Entity, x: EntityId)
    requires
        x != e.id,
    ensures
        (exists|j: int| 0 <= j < entities.push(e).len() && entities.push(e)[j].id == x) <==> (
        exists|j: int| 0 <= j < entities.len() && entities[j].id == x),
{
    let s2 = entities.push(e);
    if exists|j: int| 0 <= j < s2.len() && s2[j].id == x {
        let j = choose|j: int| 0 <= j < s2.len() && s2[j].id == x;
        assert(j < entities.len());
        assert(entities[j].id == x);
    }
    if exists|j: int| 0 <= j < entities.len() && entities[j].id == x {
        let j = choose|j: int| 0 <= j < entities.len() && entities[j].id == x;
        assert(s2[j].id == x);
    }
}

/// Removing the entry at `i` does not change whether any other id is
/// registered.
proof fn lemma_registered_after_remove(s1: Seq<Entity>, s2: Seq<Entity>, i: int, x: EntityId)
    requires
        0 <= i < s1.len(),
        s2 == s1.remove(i),
        s1[i].id != x,
    ensures
        (exists|j: int| 0 <= j < s2.len() && s2[j].id == x) <==> (exists|j: int|
            0 <= j < s1.len() && s1[j].id == x),
{
    if exists|j: int| 0 <= j < s2.len() && s2[j].id == x {
        let j = choose|j: int| 0 <= j < s2.len() && s2[j].id == x;
        let j0 = if j < i { j } else { j + 1 };
        assert(s1[j0].id == x);
    }
    if exists|j: int| 0 <= j < s1.len() && s1[j].id == x {
        let j = choose|j: int| 0 <= j < s1.len() && s1[j].id == x;
        if j != i {
            let j2 = if j < i { j } else { j - 1 };
            assert(s2[j2].id == x);
        }
    }
}

/// The components among `kinds` that `entity` owns in `w`, in kind order.
/// For pairwise distinct kinds this is exactly what `take_components`
/// returns.
pub open spec fn taken_components_spec(w: World, entity: EntityId, kinds: Seq<ComponentType>) -> Seq<
    ComponentTypes,
>
    decreases kinds.len(),
{
    if kinds.len() == 0 {
        Seq::empty()
    } else {
        let prefix = taken_components_spec(w, entity, kinds.drop_last());
        match w.get_spec(entity, kinds.last()) {
            Some(c) => prefix.push(c),
            None => prefix,
        }
    }
}

/// One more kind extends the taken list by that kind's component, if owned.
proof fn lemma_taken_components_snoc(w: World, entity: EntityId, kinds: Seq<ComponentType>, k: ComponentType)
    ensures
        taken_components_spec(w, entity, kinds.push(k)) == (match w.get_spec(entity, k) {
            Some(c) => taken_components_spec(w, entity, kinds).push(c),
            None => taken_components_spec(w, entity, kinds),
        }),
{
    let s2 = kinds.push(k);
    assert(s2.drop_last() =~= kinds);
    assert(s2.last() == k);
}

/// An entity without a storage row owns no component of any kind.
pub proof fn lemma_no_row_no_kinds(w: World, e: EntityId)
    requires
        !w.storage_spec().has_entity(e),
    ensures
        forall|k: ComponentType| !w.has_kind(e, k),
{
    assert(w.storage_spec().comps(e) =~= Seq::<ComponentTypes>::empty());
}

/// The demo ground: the flat quad mesh, not yet uploaded, under a broad
/// transform two units below the origin.
pub open spec fn ground_scene_entity(w: World, e: EntityId) -> bool {
    &&& (match crate::systems::mesh_in(w.get_spec(e, ComponentType::Mesh)) {
        Some(m) => {
            &&& m.last_vertices is Some
            &&& m.last_vertices.unwrap()@ == crate::geometry::ground_quad_vertices_spec()
            &&& m.last_indices is Some
            &&& m.last_indices.unwrap()@ == crate::geometry::ground_quad_indices_spec()
            &&& m.needs_rebuffer
            &&& m.vertex_buffer is None
        },
        None => false,
    })
    &&& (match crate::systems::transform_in(w.get_spec(e, ComponentType::Transform)) {
        Some(t) => {
            &&& t.position == (crate::geometry::Vector3 { x: 0, y: (-2_000_000) as i64, z: 0 })
            &&& t.scale == (crate::geometry::Vector3 {
                x: 20_000_000,
                y: 20_000_000,
                z: 20_000_000,
            })
            &&& t.rotation_matrix == crate::geometry::mat3_identity_spec()
            &&& t.matrix_coherent()
        },
        None => false,
    })
    &&& w.get_spec(e, ComponentType::Movement) is None
    &&& w.get_spec(e, ComponentType::Collider) is None
}

/// The demo cube: the cube mesh, not yet uploaded, half a unit up and half
/// a unit back, falling at one unit per second.
pub open spec fn cube_scene_entity(w: World, e: EntityId) -> bool {
    &&& (match crate::systems::mesh_in(w.get_spec(e, ComponentType::Mesh)) {
        Some(m) => {
            &&& m.last_vertices is Some
            &&& m.last_vertices.unwrap()@ == crate::geometry::cube_vertices_spec()
            &&& m.last_indices is Some
            &&& m.last_indices.unwrap()@ == crate::geometry::cube_indices_spec()
            &&& m.needs_rebuffer
            &&& m.vertex_buffer is None
        },
        None => false,
    })
    &&& (match crate::systems::transform_in(w.get_spec(e, ComponentType::Transform)) {
        Some(t) => {
            &&& t.position == (crate::geometry::Vector3 { x: 0, y: 500_000, z: (-500_000) as i64 })
            &&& t.scale == (crate::geometry::Vector3 {
                x: crate::fixed::FX_ONE,
                y: crate::fixed::FX_ONE,
                z: crate::fixed::FX_ONE,
            })
            &&& t.rotation_matrix == crate::geometry::mat3_identity_spec()
            &&& t.matrix_coherent()
        },
        None => false,
    })
    &&& (match crate::systems::movement_in(w.get_spec(e, ComponentType::Movement)) {
        Some(m) => {
            &&& m.velocity == (crate::geometry::Vector3 {
                x: 0,
                y: (-crate::fixed::FX_ONE) as i64,
                z: 0,
            })
            &&& m.acceleration == (crate::geometry::Vector3 { x: 0, y: 0, z: 0 })
        },
        None => false,
    })
    &&& w.get_spec(e, ComponentType::Collider) is None
}

} // verus!
