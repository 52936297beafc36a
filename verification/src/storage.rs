//! Per-entity component storage.
//!
//! The storage maps each entity id to the small unordered collection of
//! components it owns, at most one per kind.  Contracts are stated over the
//! abstract accessors `has_entity`, `comps` and `get_spec`; callers never
//! depend on how rows are laid out.

use vstd::prelude::*;

use crate::components::{kind_of, ComponentType, ComponentTypes};

verus! {

/// One entity's row: its id and the components it owns.
pub struct EntityEntry {
    pub id: u32,
    pub components: Vec<ComponentTypes>,
}

/// No two components of the collection share a kind.
pub open spec fn kinds_unique(s: Seq<ComponentTypes>) -> bool {
    forall|i: int, j: int|
        0 <= i < j < s.len() ==> kind_of(s[i]) != kind_of(s[j])
}

/// Whether the collection holds a component of kind `k`.
pub open spec fn has_comp(s: Seq<ComponentTypes>, k: ComponentType) -> bool {
    exists|j: int| 0 <= j < s.len() && kind_of(s[j]) == k
}

/// The component of kind `k` in the collection, if any.  With `kinds_unique`
/// the witness is unique, so this selects the one component of that kind.
pub open spec fn comp_of(s: Seq<ComponentTypes>, k: ComponentType) -> Option<ComponentTypes> {
    if has_comp(s, k) {
        Some(s[choose|j: int| 0 <= j < s.len() && kind_of(s[j]) == k])
    } else {
        None
    }
}

/// In a kind-unique collection, any index holding kind `k` is the one
/// `comp_of` selects.
pub proof fn lemma_comp_unique(s: Seq<ComponentTypes>, k: ComponentType, j: int)
    requires
        kinds_unique(s),
        0 <= j < s.len(),
        kind_of(s[j]) == k,
    ensures
        comp_of(s, k) == Some(s[j]),
{
    assert(has_comp(s, k));
    let w = choose|w: int| 0 <= w < s.len() && kind_of(s[w]) == k;
    if w != j {
        assert(kind_of(s[if w < j { w } else { j }]) != kind_of(s[if w < j { j } else { w }]));
    }
}

/// Maps each entity id to the components that entity owns.
pub struct ComponentStorage {
    entries: Vec<EntityEntry>,
}

impl ComponentStorage {
    /// The rows of the storage, one per entity that has an entry.
    pub closed spec fn rows(&self) -> Seq<EntityEntry> {
        self.entries@
    }

    /// Whether the storage has a row for `entity`.
    pub open spec fn has_entity(&self, entity: u32) -> bool {
        exists|i: int| 0 <= i < self.rows().len() && self.rows()[i].id == entity
    }

    /// The row index of `entity`; unique when `wf` holds.
    pub open spec fn row_of(&self, entity: u32) -> int {
        choose|i: int| 0 <= i < self.rows().len() && self.rows()[i].id == entity
    }

    /// The components owned by `entity`; empty when it has no row.
    pub open spec fn comps(&self, entity: u32) -> Seq<ComponentTypes> {
        if self.has_entity(entity) {
            self.rows()[self.row_of(entity)].components@
        } else {
            Seq::empty()
        }
    }

    /// The component of kind `k` owned by `entity`, if any.
    pub open spec fn get_spec(&self, entity: u32, k: ComponentType) -> Option<ComponentTypes> {
        comp_of(self.comps(entity), k)
    }

    /// Whether `entity` owns a component of kind `k`.
    pub open spec fn has_kind(&self, entity: u32, k: ComponentType) -> bool {
        has_comp(self.comps(entity), k)
    }

    /// Whether `entity` owns a component of every kind in `kinds`.
    pub open spec fn has_all_spec(&self, entity: u32, kinds: Seq<ComponentType>) -> bool {
        forall|i: int| 0 <= i < kinds.len() ==> self.has_kind(entity, kinds[i])
    }

    /// Row ids are distinct and each row holds at most one component per
    /// kind: the storage invariant every operation preserves.
    pub open spec fn wf(&self) -> bool {
        &&& forall|i: int, j: int|
            0 <= i < j < self.rows().len() ==> self.rows()[i].id != self.rows()[j].id
        &&& forall|i: int|
            0 <= i < self.rows().len() ==> kinds_unique(#[trigger] self.rows()[i].components@)
    }

    /// Any row index holding `entity` is the one the accessors select.
    pub proof fn lemma_row_unique(&self, entity: u32, i: int)
        requires
            self.wf(),
            0 <= i < self.rows().len(),
            self.rows()[i].id == entity,
        ensures
            self.has_entity(entity),
            self.row_of(entity) == i,
            self.comps(entity) == self.rows()[i].components@,
    {
        assert(self.has_entity(entity));
        let w = self.row_of(entity);
        if w != i {
            assert(self.rows()[if w < i { w } else { i }].id != self.rows()[if w < i {
                i
            } else {
                w
            }].id);
        }
    }

    /// An empty storage.
    pub fn new() -> (s: ComponentStorage)
        ensures
            s.rows().len() == 0,
            s.wf(),
            forall|e: u32| !s.has_entity(e),
    {
        ComponentStorage { entries: Vec::new() }
    }

    /// How many entities have a row.
    pub fn row_count(&self) -> (n: usize)
        ensures
            n == self.rows().len(),
    {
        self.entries.len()
    }

    /// The id of the row at `i`.
    pub fn row_id(&self, i: usize) -> (id: u32)
        requires
            i < self.rows().len(),
        ensures
            id == self.rows()[i as int].id,
    {
        self.entries[i].id
    }

    /// The row index of `entity`, searching front to back.
    fn find_row(&self, entity: u32) -> (r: Option<usize>)
        ensures
            match r {
                Some(i) => i < self.rows().len() && self.rows()[i as int].id == entity,
                None => !self.has_entity(entity),
            },
    {
        let mut i: usize = 0;
        while i < self.entries.len()
            invariant
                i <= self.rows().len(),
                forall|j: int| 0 <= j < i ==> self.rows()[j].id != entity,
            decreases self.rows().len() - i,
        {
            if self.entries[i].id == entity {
                return Some(i);
            }
            i = i + 1;
        }
        None
    }

    /// The index of the component of kind `k` in `components`.
    fn find_comp(components: &Vec<ComponentTypes>, k: ComponentType) -> (r: Option<usize>)
        ensures
            match r {
                Some(j) => j < components@.len() && kind_of(components@[j as int]) == k,
                None => !has_comp(components@, k),
            },
    {
        let mut j: usize = 0;
        while j < components.len()
            invariant
                j <= components@.len(),
                forall|i: int| 0 <= i < j ==> kind_of(components@[i]) != k,
            decreases components@.len() - j,
        {
            if components[j].component_type() == k {
                return Some(j);
            }
            j = j + 1;
        }
        None
    }

    /// Whether `entity` owns a component of kind `k`.
    pub fn has_component(&self, entity: u32, component_type: ComponentType) -> (b: bool)
        requires
            self.wf(),
        ensures
            b == self.has_kind(entity, component_type),
    {
        match self.find_row(entity) {
            None => {
                proof {
                    assert(!self.has_entity(entity));
                }
                false
            },
            Some(i) => {
                proof {
                    self.lemma_row_unique(entity, i as int);
                }
                match Self::find_comp(&self.entries[i].components, component_type) {
                    Some(j) => {
                        proof {
                            assert(has_comp(self.comps(entity), component_type));
                        }
                        true
                    },
                    None => false,
                }
            },
        }
    }

    /// Whether `entity` owns a component of every kind in `kinds`.
    pub fn has_all(&self, entity: u32, kinds: &Vec<ComponentType>) -> (b: bool)
        requires
            self.wf(),
        ensures
            b == self.has_all_spec(entity, kinds@),
    {
        let mut i: usize = 0;
        while i < kinds.len()
            invariant
                self.wf(),
                i <= kinds@.len(),
                forall|j: int| 0 <= j < i ==> self.has_kind(entity, kinds@[j]),
            decreases kinds@.len() - i,
        {
            if !self.has_component(entity, kinds[i]) {
                return false;
            }
            i = i + 1;
        }
        true
    }

    /// A shared reference to the component of kind `k` owned by `entity`.
    pub fn get_component(&self, entity: u32, component_type: ComponentType) -> (r: Option<
        &ComponentTypes,
    >)
        requires
            self.wf(),
        ensures
            match r {
                Some(c) => self.get_spec(entity, component_type) == Some(*c),
                None => self.get_spec(entity, component_type) is None,
            },
    {
        match self.find_row(entity) {
            None => None,
            Some(i) => {
                proof {
                    self.lemma_row_unique(entity, i as int);
                }
                match Self::find_comp(&self.entries[i].components, component_type) {
                    None => None,
                    Some(j) => {
                        proof {
                            lemma_comp_unique(self.comps(entity), component_type, j as int);
                        }
                        Some(&self.entries[i].components[j])
                    },
                }
            },
        }
    }

    /// Append `component` to the collection of `entity`, creating the row if
    /// it is missing.  The caller upholds the one-per-kind invariant by not
    /// adding a kind the entity already owns.
    pub fn add_component(&mut self, entity: u32, component: ComponentTypes)
        requires
            old(self).wf(),
            !old(self).has_kind(entity, kind_of(component)),
        ensures
            final(self).wf(),
            final(self).has_entity(entity),
            final(self).comps(entity) == old(self).comps(entity).push(component),
            forall|x: u32|
                x != entity ==> final(self).has_entity(x) == old(self).has_entity(x)
                    && final(self).comps(x) == old(self).comps(x),
    {
        let ghost old_self = *self;
        match self.find_row(entity) {
            Some(i) => {
                proof {
                    old_self.lemma_row_unique(entity, i as int);
                }
                self.entries[i].components.push(component);
                proof {
                    assert(self.rows() =~= old_self.rows().update(
                        i as int,
                        EntityEntry {
                            id: entity,
                            components: self.rows()[i as int].components,
                        },
                    ));
                    assert(self.rows()[i as int].components@ =~= old_self.comps(entity).push(
                        component,
                    ));
                    assert forall|a: int, b: int|
                        0 <= a < b < self.rows().len() implies self.rows()[a].id
                        != self.rows()[b].id by {
                        assert(old_self.rows()[a].id != old_self.rows()[b].id);
                    }
                    assert forall|a: int|
                        0 <= a < self.rows().len() implies kinds_unique(
                        #[trigger] self.rows()[a].components@,
                    ) by {
                        if a == i {
                            let s = old_self.comps(entity);
                            assert(!has_comp(s, kind_of(component)));
                            assert forall|p: int, q: int|
                                0 <= p < q < s.push(component).len() implies kind_of(
                                s.push(component)[p],
                            ) != kind_of(s.push(component)[q]) by {
                                if q < s.len() {
                                    assert(kinds_unique(s));
                                } else {
                                    assert(kind_of(s[p]) != kind_of(component));
                                }
                            }
                        } else {
                            assert(kinds_unique(old_self.rows()[a].components@));
                        }
                    }
                    self.lemma_row_unique(entity, i as int);
                    assert forall|x: u32| x != entity implies final(self).has_entity(x)
                        == old_self.has_entity(x) && final(self).comps(x) == old_self.comps(
                        x,
                    ) by {
                        lemma_same_row_same_entity(old_self, *self, x);
                    }
                }
            },
            None => {
                let mut components: Vec<ComponentTypes> = Vec::new();
                components.push(component);
                self.entries.push(EntityEntry { id: entity, components });
                proof {
                    let n = old_self.rows().len();
                    assert(self.rows() =~= old_self.rows().push(self.rows()[n as int]));
                    assert(self.rows()[n as int].id == entity);
                    assert(self.rows()[n as int].components@ =~= Seq::empty().push(component));
                    assert forall|a: int, b: int|
                        0 <= a < b < self.rows().len() implies self.rows()[a].id
                        != self.rows()[b].id by {
                        if b < n {
                            assert(old_self.rows()[a].id != old_self.rows()[b].id);
                        } else {
                            assert(!old_self.has_entity(entity));
                        }
                    }
                    self.lemma_row_unique(entity, n as int);
                    assert(old_self.comps(entity) =~= Seq::<ComponentTypes>::empty());
                    assert(final(self).comps(entity) =~= old_self.comps(entity).push(component));
                    assert forall|x: u32| x != entity implies final(self).has_entity(x)
                        == old_self.has_entity(x) && final(self).comps(x) == old_self.comps(
                        x,
                    ) by {
                        lemma_same_row_same_entity(old_self, *self, x);
                    }
                }
            },
        }
    }

    /// Remove and return the component of kind `k` owned by `entity`; the
    /// storage is unchanged when there is none.
    pub fn take_component(&mut self, entity: u32, component_type: ComponentType) -> (r: Option<
        ComponentTypes,
    >)
        requires
            old(self).wf(),
        ensures
            final(self).wf(),
            r == old(self).get_spec(entity, component_type),
            final(self).get_spec(entity, component_type) is None,
            forall|k2: ComponentType|
                k2 != component_type ==> final(self).get_spec(entity, k2) == old(self).get_spec(
                    entity,
                    k2,
                ),
            forall|x: u32|
                x != entity ==> final(self).has_entity(x) == old(self).has_entity(x)
                    && final(self).comps(x) == old(self).comps(x),
            final(self).has_entity(entity) == old(self).has_entity(entity),
    {
        let ghost old_self = *self;
        match self.find_row(entity) {
            None => {
                proof {
                    assert(old_self.comps(entity) =~= Seq::<ComponentTypes>::empty());
                }
                None
            },
            Some(i) => {
                proof {
                    old_self.lemma_row_unique(entity, i as int);
                }
                match Self::find_comp(&self.entries[i].components, component_type) {
                    None => None,
                    Some(j) => {
                        proof {
                            lemma_comp_unique(old_self.comps(entity), component_type, j as int);
                        }
                        let c = self.entries[i].components.remove(j);
                        proof {
                            let s = old_self.comps(entity);
                            let s2 = s.remove(j as int);
                            assert(self.rows() =~= old_self.rows().update(
                                i as int,
                                EntityEntry {
                                    id: entity,
                                    components: self.rows()[i as int].components,
                                },
                            ));
                            assert(self.rows()[i as int].components@ =~= s2);
                            assert forall|a: int, b: int|
                                0 <= a < b < self.rows().len() implies self.rows()[a].id
                                != self.rows()[b].id by {
                                assert(old_self.rows()[a].id != old_self.rows()[b].id);
                            }
                            lemma_kinds_unique_remove(s, j as int);
                            assert forall|a: int|
                                0 <= a < self.rows().len() implies kinds_unique(
                                #[trigger] self.rows()[a].components@,
                            ) by {
                                if a != i {
                                    assert(kinds_unique(old_self.rows()[a].components@));
                                }
                            }
                            self.lemma_row_unique(entity, i as int);
                            assert(final(self).comps(entity) == s2);
                            assert forall|j2: int|
                                0 <= j2 < s2.len() implies kind_of(s2[j2]) != component_type by {
                                if j2 < j {
                                    assert(kind_of(s[j2]) != kind_of(s[j as int]));
                                } else {
                                    assert(kind_of(s[j2 + 1]) != kind_of(s[j as int]));
                                }
                            }
                            assert(!has_comp(s2, component_type));
                            assert forall|k2: ComponentType|
                                k2 != component_type implies final(self).get_spec(entity, k2)
                                == old_self.get_spec(entity, k2) by {
                                lemma_remove_preserves_other_kinds(s, j as int, k2);
                            }
                            assert forall|x: u32| x != entity implies final(self).has_entity(x)
                                == old_self.has_entity(x) && final(self).comps(x)
                                == old_self.comps(x) by {
                                lemma_same_row_same_entity(old_self, *self, x);
                            }
                        }
                        Some(c)
                    },
                }
            },
        }
    }

    /// Replace the component of the same kind as `component` owned by
    /// `entity`, in place; a no-op when the entity owns no such component.
    pub fn replace_component(&mut self, entity: u32, component: ComponentTypes)
        requires
            old(self).wf(),
        ensures
            final(self).wf(),
            old(self).has_kind(entity, kind_of(component)) ==> final(self).get_spec(
                entity,
                kind_of(component),
            ) == Some(component),
            !old(self).has_kind(entity, kind_of(component)) ==> *final(self) == *old(self),
            forall|k2: ComponentType|
                k2 != kind_of(component) ==> final(self).get_spec(entity, k2) == old(
                    self,
                ).get_spec(entity, k2),
            forall|x: u32|
                x != entity ==> final(self).has_entity(x) == old(self).has_entity(x)
                    && final(self).comps(x) == old(self).comps(x),
            final(self).has_entity(entity) == old(self).has_entity(entity),
            final(self).comps(entity).len() == old(self).comps(entity).len(),
            final(self).rows().len() == old(self).rows().len(),
            forall|i: int|
                0 <= i < final(self).rows().len() ==> final(self).rows()[i].id == old(
                    self,
                ).rows()[i].id,
    {
        let ghost old_self = *self;
        let ghost k = kind_of(component);
        match self.find_row(entity) {
            None => {
                proof {
                    assert(old_self.comps(entity) =~= Seq::<ComponentTypes>::empty());
                }
            },
            Some(i) => {
                proof {
                    old_self.lemma_row_unique(entity, i as int);
                }
                match Self::find_comp(&self.entries[i].components, component.component_type()) {
                    None => {},
                    Some(j) => {
                        proof {
                            lemma_comp_unique(old_self.comps(entity), k, j as int);
                        }
                        let _ = self.entries[i].components.remove(j);
                        self.entries[i].components.insert(j, component);
                        proof {
                            let s = old_self.comps(entity);
                            let s2 = s.update(j as int, component);
                            assert(self.rows() =~= old_self.rows().update(
                                i as int,
                                EntityEntry {
                                    id: entity,
                                    components: self.rows()[i as int].components,
                                },
                            ));
                            assert(self.rows()[i as int].components@ =~= s2);
                            assert forall|a: int, b: int|
                                0 <= a < b < self.rows().len() implies self.rows()[a].id
                                != self.rows()[b].id by {
                                assert(old_self.rows()[a].id != old_self.rows()[b].id);
                            }
                            assert forall|p: int, q: int|
                                0 <= p < q < s2.len() implies kind_of(s2[p]) != kind_of(
                                s2[q],
                            ) by {
                                assert(kind_of(s[p]) != kind_of(s[q]));
                            }
                            assert forall|a: int|
                                0 <= a < self.rows().len() implies kinds_unique(
                                #[trigger] self.rows()[a].components@,
                            ) by {
                                if a != i {
                                    assert(kinds_unique(old_self.rows()[a].components@));
                                }
                            }
                            self.lemma_row_unique(entity, i as int);
                            lemma_comp_unique(s2, k, j as int);
                            assert forall|k2: ComponentType|
                                k2 != k implies comp_of(s2, k2) == comp_of(s, k2) by {
                                lemma_update_preserves_other_kinds(s, j as int, component, k2);
                            }
                            assert forall|x: u32| x != entity implies self.has_entity(x)
                                == old_self.has_entity(x) && self.comps(x) == old_self.comps(
                                x,
                            ) by {
                                lemma_same_row_same_entity(old_self, *self, x);
                            }
                        }
                    },
                }
            },
        }
    }

    /// Delete the component of kind `k` owned by `entity`; a no-op when the
    /// entity owns none.
    pub fn remove_component(&mut self, entity: u32, component_type: ComponentType)
        requires
            old(self).wf(),
        ensures
            final(self).wf(),
            final(self).get_spec(entity, component_type) is None,
            forall|k2: ComponentType|
                k2 != component_type ==> final(self).get_spec(entity, k2) == old(self).get_spec(
                    entity,
                    k2,
                ),
            forall|x: u32|
                x != entity ==> final(self).has_entity(x) == old(self).has_entity(x)
                    && final(self).comps(x) == old(self).comps(x),
            final(self).has_entity(entity) == old(self).has_entity(entity),
    {
        let _ = self.take_component(entity, component_type);
    }

    /// Delete the whole row of `entity`, removing every component it owns.
    pub fn remove_entity(&mut self, entity: u32)
        requires
            old(self).wf(),
        ensures
            final(self).wf(),
            !final(self).has_entity(entity),
            final(self).comps(entity) == Seq::<ComponentTypes>::empty(),
            forall|k: ComponentType| final(self).get_spec(entity, k) is None,
            forall|x: u32|
                x != entity ==> final(self).has_entity(x) == old(self).has_entity(x)
                    && final(self).comps(x) == old(self).comps(x),
    {
        let ghost old_self = *self;
        match self.find_row(entity) {
            None => {
                proof {
                    assert(old_self.comps(entity) =~= Seq::<ComponentTypes>::empty());
                }
            },
            Some(i) => {
                proof {
                    old_self.lemma_row_unique(entity, i as int);
                }
                let _ = self.entries.remove(i);
                proof {
                    assert(self.rows() =~= old_self.rows().remove(i as int));
                    assert forall|a: int, b: int|
                        0 <= a < b < self.rows().len() implies self.rows()[a].id
                        != self.rows()[b].id by {
                        let a0 = if a < i { a } else { a + 1 };
                        let b0 = if b < i { b } else { b + 1 };
                        assert(old_self.rows()[a0].id != old_self.rows()[b0].id);
                    }
                    assert forall|a: int|
                        0 <= a < self.rows().len() implies kinds_unique(
                        #[trigger] self.rows()[a].components@,
                    ) by {
                        let a0 = if a < i { a } else { a + 1 };
                        assert(kinds_unique(old_self.rows()[a0].components@));
                    }
                    assert forall|w: int|
                        0 <= w < self.rows().len() implies self.rows()[w].id != entity by {
                        let w0 = if w < i { w } else { w + 1 };
                        let ii = i as int;
                        if w0 != ii {
                            assert(old_self.rows()[if w0 < ii { w0 } else { ii }].id
                                != old_self.rows()[if w0 < ii { ii } else { w0 }].id);
                        }
                    }
                    assert(!final(self).has_entity(entity));
                    assert(final(self).comps(entity) =~= Seq::<ComponentTypes>::empty());
                    assert forall|x: u32| x != entity implies final(self).has_entity(x)
                        == old_self.has_entity(x) && final(self).comps(x) == old_self.comps(
                        x,
                    ) by {
                        if old_self.has_entity(x) {
                            let w0 = old_self.row_of(x);
                            let w = if w0 < i { w0 } else { w0 - 1 };
                            assert(old_self.rows()[w0].id == x);
                            assert(w0 != i);
                            assert(self.rows()[w].id == x);
                            self.lemma_row_unique(x, w);
                        } else {
                            assert forall|w: int|
                                0 <= w < self.rows().len() implies self.rows()[w].id != x by {
                                let w0 = if w < i { w } else { w + 1 };
                                assert(!old_self.has_entity(x));
                            }
                            assert(final(self).comps(x) =~= Seq::<ComponentTypes>::empty());
                            assert(old_self.comps(x) =~= Seq::<ComponentTypes>::empty());
                        }
                    }
                }
            },
        }
    }
}

impl ComponentStorage {
    /// Apply `f` to every stored component of the given kind, across all
    /// entities, in row order.  `f` borrows immutably and captures nothing
    /// mutably, so the storage is unchanged; `get_component` and `has_all`
    /// carry the exact contracts.
    pub fn foreach_component_by_type<F: Fn(&ComponentTypes)>(
        &self,
        component_type: ComponentType,
        f: F,
    )
        requires
            forall|c: ComponentTypes| call_requires(f, (&c,)),
    {
        let mut i: usize = 0;
        while i < self.entries.len()
            invariant
                forall|c: ComponentTypes| call_requires(f, (&c,)),
                i <= self.entries@.len(),
            decreases self.entries@.len() - i,
        {
            let components = &self.entries[i].components;
            let mut j: usize = 0;
            while j < components.len()
                invariant
                    forall|c: ComponentTypes| call_requires(f, (&c,)),
                    j <= components@.len(),
                decreases components@.len() - j,
            {
                if components[j].component_type() == component_type {
                    f(&components[j]);
                }
                j = j + 1;
            }
            i = i + 1;
        }
    }

    /// Apply `f` to every component owned by `entity`.
    pub fn foreach_component_by_entity<F: Fn(&ComponentTypes)>(&self, entity: u32, f: F)
        requires
            forall|c: ComponentTypes| call_requires(f, (&c,)),
    {
        match self.find_row(entity) {
            None => {},
            Some(i) => {
                let components = &self.entries[i].components;
                let mut j: usize = 0;
                while j < components.len()
                    invariant
                        forall|c: ComponentTypes| call_requires(f, (&c,)),
                        j <= components@.len(),
                    decreases components@.len() - j,
                {
                    f(&components[j]);
                    j = j + 1;
                }
            },
        }
    }

    /// Apply `f` to the component of the given kind owned by `entity`, if
    /// there is one.
    pub fn with_component(
        &self,
        entity: u32,
        component_type: ComponentType,
        f: impl Fn(&ComponentTypes),
    )
        requires
            forall|c: ComponentTypes| call_requires(f, (&c,)),
    {
        match self.find_row(entity) {
            None => {},
            Some(i) => {
                match Self::find_comp(&self.entries[i].components, component_type) {
                    None => {},
                    Some(j) => {
                        f(&self.entries[i].components[j]);
                    },
                }
            },
        }
    }

    /// Apply `f` to the id of every entity owning all the given kinds, in
    /// row order.  `query` on the world carries the exact contract.
    pub fn foreach_entity_with_component_types<F: Fn(u32)>(
        &self,
        component_types: &Vec<ComponentType>,
        f: F,
    )
        requires
            self.wf(),
            forall|e: u32| call_requires(f, (e,)),
    {
        let mut i: usize = 0;
        while i < self.entries.len()
            invariant
                self.wf(),
                forall|e: u32| call_requires(f, (e,)),
                i <= self.entries@.len(),
            decreases self.entries@.len() - i,
        {
            let e = self.entries[i].id;
            if self.has_all(e, component_types) {
                f(e);
            }
            i = i + 1;
        }
    }
}

impl Default for ComponentStorage {
    /// An empty storage.
    fn default() -> (s: ComponentStorage)
        ensures
            s.rows().len() == 0,
            s.wf(),
            forall|e: u32| !s.has_entity(e),
    {
        ComponentStorage::new()
    }
}

/// Two storages whose rows agree except at rows not holding `x` agree on `x`.
proof fn lemma_same_row_same_entity(s1: ComponentStorage, s2: ComponentStorage, x: u32)
    requires
        s1.wf(),
        s2.wf(),
        s1.rows().len() <= s2.rows().len(),
        s2.rows().len() <= s1.rows().len() + 1,
        forall|i: int|
            0 <= i < s1.rows().len() && s1.rows()[i].id == x ==> s2.rows().len() > i
                && s2.rows()[i] == s1.rows()[i],
        forall|i: int|
            0 <= i < s1.rows().len() && s2.rows()[i].id == x ==> s2.rows()[i] == s1.rows()[i],
        s2.rows().len() > s1.rows().len() ==> s2.rows()[s1.rows().len() as int].id != x,
    ensures
        s2.has_entity(x) == s1.has_entity(x),
        s2.comps(x) == s1.comps(x),
{
    if s1.has_entity(x) {
        let i = s1.row_of(x);
        assert(s1.rows()[i].id == x);
        assert(s2.rows()[i] == s1.rows()[i]);
        s1.lemma_row_unique(x, i);
        s2.lemma_row_unique(x, i);
    } else {
        assert forall|i: int| 0 <= i < s2.rows().len() implies s2.rows()[i].id != x by {
            if i < s1.rows().len() {
                if s2.rows()[i].id == x {
                    assert(s2.rows()[i] == s1.rows()[i]);
                }
            }
        }
        if s2.has_entity(x) {
            let i = s2.row_of(x);
            assert(s2.rows()[i].id != x);
        }
        assert(s1.comps(x) =~= Seq::<ComponentTypes>::empty());
        assert(s2.comps(x) =~= Seq::<ComponentTypes>::empty());
    }
}

/// Appending a component of a different kind leaves every other kind's
/// component as it was.
pub proof fn lemma_push_preserves_other_kinds(s: Seq<ComponentTypes>, c: ComponentTypes, k2: ComponentType)
    requires
        kinds_unique(s),
        !has_comp(s, kind_of(c)),
        kind_of(c) != k2,
    ensures
        comp_of(s.push(c), k2) == comp_of(s, k2),
{
    let s2 = s.push(c);
    if has_comp(s, k2) {
        let w = choose|w: int| 0 <= w < s.len() && kind_of(s[w]) == k2;
        lemma_comp_unique(s, k2, w);
        assert(s2[w] == s[w]);
        assert forall|p: int, q: int|
            0 <= p < q < s2.len() implies kind_of(s2[p]) != kind_of(s2[q]) by {
            if q < s.len() {
                assert(kinds_unique(s));
            } else {
                assert(kind_of(s2[p]) == kind_of(s[p]));
                assert(!has_comp(s, kind_of(c)));
            }
        }
        lemma_comp_unique(s2, k2, w);
    } else {
        assert forall|w: int| 0 <= w < s2.len() implies kind_of(s2[w]) != k2 by {
            if w < s.len() {
                assert(!has_comp(s, k2));
            }
        }
        assert(!has_comp(s2, k2));
    }
}

/// Updating the component at `j` leaves every other kind's component as it
/// was, provided the new component has the kind that was at `j`.
proof fn lemma_update_preserves_other_kinds(
    s: Seq<ComponentTypes>,
    j: int,
    c: ComponentTypes,
    k2: ComponentType,
)
    requires
        kinds_unique(s),
        0 <= j < s.len(),
        kind_of(s[j]) == kind_of(c),
        kind_of(c) != k2,
    ensures
        comp_of(s.update(j, c), k2) == comp_of(s, k2),
{
    let s2 = s.update(j, c);
    assert forall|p: int, q: int|
        0 <= p < q < s2.len() implies kind_of(s2[p]) != kind_of(s2[q]) by {
        assert(kind_of(s[p]) != kind_of(s[q]));
    }
    if has_comp(s, k2) {
        let w = choose|w: int| 0 <= w < s.len() && kind_of(s[w]) == k2;
        lemma_comp_unique(s, k2, w);
        assert(w != j);
        assert(s2[w] == s[w]);
        lemma_comp_unique(s2, k2, w);
    } else {
        assert forall|w: int| 0 <= w < s2.len() implies kind_of(s2[w]) != k2 by {
            if w != j {
                assert(!has_comp(s, k2));
            }
        }
        assert(!has_comp(s2, k2));
    }
}

/// Removing one element of a kind-unique collection keeps it kind-unique.
proof fn lemma_kinds_unique_remove(s: Seq<ComponentTypes>, j: int)
    requires
        kinds_unique(s),
        0 <= j < s.len(),
    ensures
        kinds_unique(s.remove(j)),
{
    let s2 = s.remove(j);
    assert forall|p: int, q: int|
        0 <= p < q < s2.len() implies kind_of(s2[p]) != kind_of(s2[q]) by {
        let p0 = if p < j { p } else { p + 1 };
        let q0 = if q < j { q } else { q + 1 };
        assert(kind_of(s[p0]) != kind_of(s[q0]));
    }
}

/// Removing the component at `j` leaves every other kind's component as it
/// was.
proof fn lemma_remove_preserves_other_kinds(s: Seq<ComponentTypes>, j: int, k2: ComponentType)
    requires
        kinds_unique(s),
        0 <= j < s.len(),
        kind_of(s[j]) != k2,
    ensures
        comp_of(s.remove(j), k2) == comp_of(s, k2),
{
    let s2 = s.remove(j);
    lemma_kinds_unique_remove(s, j);
    if has_comp(s, k2) {
        let w = choose|w: int| 0 <= w < s.len() && kind_of(s[w]) == k2;
        lemma_comp_unique(s, k2, w);
        assert(w != j);
        let w2 = if w < j { w } else { w - 1 };
        assert(s2[w2] == s[w]);
        lemma_comp_unique(s2, k2, w2);
    } else {
        assert forall|w: int| 0 <= w < s2.len() implies kind_of(s2[w]) != k2 by {
            let w0 = if w < j { w } else { w + 1 };
            assert(!has_comp(s, k2));
        }
        assert(!has_comp(s2, k2));
    }
}

} // verus!
