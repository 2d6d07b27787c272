//! The entity store: a map from entity identifiers to what each entity is and where it is.
//!
//! Identifiers are handed out in increasing order and never come back, so an identifier
//! names at most one entity over the whole life of a store.

use vstd::prelude::*;
use crate::geometry::Position;

verus! {

/// The identifier of an entity.
pub type EntityId = u64;

/// What an entity is.
#[derive(Clone, Copy, PartialEq, Eq, Structural, Debug)]
pub enum Kind {
    /// The head of the snake.
    Head,
    /// A segment of the snake behind its head.
    Body,
    /// A piece of food.
    Food,
}

/// A tag by which entities are looked up.
#[derive(Clone, Copy, PartialEq, Eq, Structural, Debug)]
pub enum Tag {
    /// Carried by the head of the snake.
    SnakeHead,
    /// Carried by every part of the snake, head or body.
    SnakeSegment,
    /// Carried by food.
    Food,
}

impl Kind {
    /// Whether an entity of this kind carries `tag`.
    pub open spec fn has_spec(&self, tag: Tag) -> bool {
        match (*self, tag) {
            (Kind::Head, Tag::SnakeHead) => true,
            (Kind::Head, Tag::SnakeSegment) => true,
            (Kind::Body, Tag::SnakeSegment) => true,
            (Kind::Food, Tag::Food) => true,
            _ => false,
        }
    }

    /// The side of the square that shows an entity of this kind, in hundredths of a cell.
    pub open spec fn extent_spec(&self) -> u32 {
        match self {
            Kind::Head => 80,
            Kind::Body => 65,
            Kind::Food => 80,
        }
    }

    /// Returns the side of the square that shows an entity of this kind, in hundredths of
    /// a cell.
    #[verifier::when_used_as_spec(extent_spec)]
    pub fn extent(&self) -> (r: u32)
        ensures
            r == self.extent_spec(),
    {
        match self {
            Kind::Head => 80,
            Kind::Body => 65,
            Kind::Food => 80,
        }
    }

    /// Tells whether an entity of this kind carries `tag`.
    #[verifier::when_used_as_spec(has_spec)]
    pub fn has(&self, tag: Tag) -> (r: bool)
        ensures
            r == self.has_spec(tag),
    {
        match (*self, tag) {
            (Kind::Head, Tag::SnakeHead) => true,
            (Kind::Head, Tag::SnakeSegment) => true,
            (Kind::Body, Tag::SnakeSegment) => true,
            (Kind::Food, Tag::Food) => true,
            _ => false,
        }
    }
}

/// What the store knows of one entity.
#[derive(Clone, Copy, PartialEq, Eq, Structural, Debug)]
pub struct Entity {
    pub kind: Kind,
    pub position: Position,
}

#[derive(Clone, Copy)]
struct Record {
    id: EntityId,
    entity: Entity,
}

/// The entities that are alive, each under its identifier.
pub struct EntityStore {
    records: Vec<Record>,
    next_id: EntityId,
}

impl View for EntityStore {
    type V = Map<EntityId, Entity>;

    /// The entities that are alive, by identifier.
    closed spec fn view(&self) -> Map<EntityId, Entity> {
        Map::new(
            |id: EntityId| self.has_slot(id),
            |id: EntityId| self.records[self.slot_of(id)].entity,
        )
    }
}

impl EntityStore {
    spec fn has_slot(&self, id: EntityId) -> bool {
        exists|i: int| 0 <= i < self.records.len() && #[trigger] self.records[i].id == id
    }

    spec fn slot_of(&self, id: EntityId) -> int {
        choose|i: int| 0 <= i < self.records.len() && #[trigger] self.records[i].id == id
    }

    /// The records are in increasing order of their identifiers, all of which were handed out.
    pub closed spec fn wf(&self) -> bool {
        &&& forall|i: int, j: int|
            0 <= i < j < self.records.len() ==> #[trigger] self.records[i].id
                < #[trigger] self.records[j].id
        &&& forall|i: int|
            0 <= i < self.records.len() ==> #[trigger] self.records[i].id < self.next_id
    }

    /// The identifier that the next entity to be spawned gets.
    pub closed spec fn next_id(&self) -> EntityId {
        self.next_id
    }

    /// Whether `n` more entities can be spawned before the identifiers run out.
    pub open spec fn can_spawn(&self, n: nat) -> bool {
        self.next_id() + n <= u64::MAX
    }

    proof fn lemma_slot(&self, i: int)
        requires
            self.wf(),
            0 <= i < self.records.len(),
        ensures
            self.has_slot(self.records[i].id),
            self.slot_of(self.records[i].id) == i,
            self@.contains_key(self.records[i].id),
            self@[self.records[i].id] == self.records[i].entity,
    {
        let id = self.records[i].id;
        let j = self.slot_of(id);
        assert(self.records[j].id == id);
        if j < i {
            assert(self.records[j].id < self.records[i].id);
        } else if i < j {
            assert(self.records[i].id < self.records[j].id);
        }
    }

    spec fn ids(&self) -> Seq<EntityId> {
        Seq::new(self.records.len() as nat, |i: int| self.records[i].id)
    }

    proof fn lemma_ids(&self)
        requires
            self.wf(),
        ensures
            self@.dom() == self.ids().to_set(),
            self.ids().no_duplicates(),
    {
        let ids = self.ids();
        assert forall|id: EntityId| self@.dom().contains(id) <==> ids.to_set().contains(id) by {
            if self@.dom().contains(id) {
                let i = self.slot_of(id);
                assert(ids[i] == id);
            }
            if ids.to_set().contains(id) {
                let i = choose|i: int| 0 <= i < ids.len() && ids[i] == id;
                assert(self.records[i].id == id);
            }
        }
        assert(self@.dom() =~= ids.to_set());
        assert forall|i: int, j: int|
            0 <= i < ids.len() && 0 <= j < ids.len() && i != j implies ids[i] != ids[j] by {
            if i < j {
                assert(self.records[i].id < self.records[j].id);
            } else {
                assert(self.records[j].id < self.records[i].id);
            }
        }
    }

    /// In a well-formed store only finitely many entities are alive, and the identifier of
    /// each was handed out before.
    pub proof fn lemma_alive(&self)
        requires
            self.wf(),
        ensures
            self@.dom().finite(),
            forall|id: EntityId| #[trigger] self@.contains_key(id) ==> id < self.next_id(),
    {
        self.lemma_ids();
        vstd::seq_lib::seq_to_set_is_finite(self.ids());
        assert forall|id: EntityId| #[trigger] self@.contains_key(id) implies id
            < self.next_id() by {
            let i = self.slot_of(id);
            assert(self.records[i].id == id);
        }
    }

    /// Makes a store in which nothing is alive yet.
    pub fn new() -> (r: EntityStore)
        ensures
            r.wf(),
            r@ == Map::<EntityId, Entity>::empty(),
            r.next_id() == 0,
    {
        let r = EntityStore { records: Vec::new(), next_id: 0 };
        assert(r@ =~= Map::<EntityId, Entity>::empty());
        r
    }

    fn find(&self, id: EntityId) -> (r: Option<usize>)
        requires
            self.wf(),
        ensures
            r matches Some(i) ==> i < self.records.len() && self.records[i as int].id == id,
            r is None ==> !self.has_slot(id),
    {
        let mut i: usize = 0;
        while i < self.records.len()
            invariant
                i <= self.records.len(),
                forall|j: int| 0 <= j < i ==> #[trigger] self.records[j].id != id,
            decreases self.records.len() - i,
        {
            if self.records[i].id == id {
                return Some(i);
            }
            i += 1;
        }
        None
    }

    /// Returns the entity that is alive under `id`, if there is one.
    pub fn get(&self, id: EntityId) -> (r: Option<Entity>)
        requires
            self.wf(),
        ensures
            r == (if self@.contains_key(id) {
                Some(self@[id])
            } else {
                None
            }),
    {
        match self.find(id) {
            Some(i) => {
                proof {
                    self.lemma_slot(i as int);
                }
                Some(self.records[i].entity)
            },
            None => None,
        }
    }

    /// Returns where the entity under `id` is, if it is alive.
    pub fn get_position(&self, id: EntityId) -> (r: Option<Position>)
        requires
            self.wf(),
        ensures
            r == (if self@.contains_key(id) {
                Some(self@[id].position)
            } else {
                None
            }),
    {
        match self.get(id) {
            Some(e) => Some(e.position),
            None => None,
        }
    }

    /// Tells whether `n` more entities can be spawned.
    pub fn has_room(&self, n: u64) -> (r: bool)
        ensures
            r == self.can_spawn(n as nat),
    {
        n <= u64::MAX - self.next_id
    }

    /// Brings a new entity to life and returns its identifier, which no entity had before.
    pub fn spawn(&mut self, kind: Kind, position: Position) -> (id: EntityId)
        requires
            old(self).wf(),
            old(self).can_spawn(1),
        ensures
            final(self).wf(),
            id == old(self).next_id(),
            !old(self)@.contains_key(id),
            final(self).next_id() == id + 1,
            final(self)@ == old(self)@.insert(id, Entity { kind, position }),
    {
        let ghost pre = *self;
        let id = self.next_id;
        proof {
            pre.lemma_alive();
        }
        self.records.push(Record { id, entity: Entity { kind, position } });
        self.next_id = id + 1;
        proof {
            let n = pre.records.len() as int;
            let post = pre@.insert(id, Entity { kind, position });
            assert(self.wf());
            assert forall|k: EntityId| #[trigger] self@.contains_key(k) <==> post.contains_key(
                k,
            ) by {
                if self@.contains_key(k) {
                    let i = self.slot_of(k);
                    if i < n {
                        assert(pre.records[i].id == k);
                    }
                }
                if pre@.contains_key(k) {
                    let i = pre.slot_of(k);
                    assert(self.records[i].id == k);
                }
                if k == id {
                    assert(self.records[n].id == k);
                }
            }
            assert forall|k: EntityId| #[trigger] self@.contains_key(k) implies self@[k]
                == post[k] by {
                let i = self.slot_of(k);
                self.lemma_slot(i);
                if i < n {
                    pre.lemma_slot(i);
                }
            }
            assert(self@ =~= post);
        }
        id
    }

    /// Tells whether an entity is alive under `id`.
    pub fn contains(&self, id: EntityId) -> (r: bool)
        requires
            self.wf(),
        ensures
            r == self@.contains_key(id),
    {
        self.find(id).is_some()
    }

    /// Returns how many entities are alive.
    pub fn len(&self) -> (r: usize)
        requires
            self.wf(),
        ensures
            r == self@.dom().len(),
    {
        proof {
            self.lemma_len();
        }
        self.records.len()
    }

    proof fn lemma_len(&self)
        requires
            self.wf(),
        ensures
            self@.dom().len() == self.records.len(),
    {
        self.lemma_ids();
        self.ids().unique_seq_to_set();
    }

    /// Moves the entity under `id` to `position` and tells whether it was alive; a dead
    /// identifier changes nothing.
    pub fn set_position(&mut self, id: EntityId, position: Position) -> (r: bool)
        requires
            old(self).wf(),
        ensures
            final(self).wf(),
            final(self).next_id() == old(self).next_id(),
            r == old(self)@.contains_key(id),
            final(self)@ == (if r {
                old(self)@.insert(id, Entity { kind: old(self)@[id].kind, position })
            } else {
                old(self)@
            }),
    {
        let ghost pre = *self;
        match self.find(id) {
            Some(i) => {
                let kind = self.records[i].entity.kind;
                self.records.set(i, Record { id, entity: Entity { kind, position } });
                proof {
                    pre.lemma_slot(i as int);
                    let post = pre@.insert(id, Entity { kind, position });
                    assert(self.wf()) by {
                        assert forall|a: int| 0 <= a < self.records.len() implies #[trigger]
                            self.records[a].id == pre.records[a].id by {}
                    }
                    assert forall|k: EntityId| #[trigger]
                        self@.contains_key(k) <==> post.contains_key(k) by {
                        if self@.contains_key(k) {
                            let a = self.slot_of(k);
                            assert(pre.records[a].id == k);
                        }
                        if pre@.contains_key(k) {
                            let a = pre.slot_of(k);
                            assert(self.records[a].id == k);
                        }
                    }
                    assert forall|k: EntityId| #[trigger] self@.contains_key(k) implies self@[k]
                        == post[k] by {
                        let a = self.slot_of(k);
                        self.lemma_slot(a);
                        pre.lemma_slot(a);
                    }
                    assert(self@ =~= post);
                }
                true
            },
            None => false,
        }
    }

    /// Takes the entity under `id` out of the store and tells whether it was alive.
    pub fn despawn(&mut self, id: EntityId) -> (r: bool)
        requires
            old(self).wf(),
        ensures
            final(self).wf(),
            final(self).next_id() == old(self).next_id(),
            r == old(self)@.contains_key(id),
            final(self)@ == old(self)@.remove(id),
    {
        let ghost pre = *self;
        match self.find(id) {
            Some(i) => {
                self.records.remove(i);
                proof {
                    let n = i as int;
                    pre.lemma_slot(n);
                    let post = pre@.remove(id);
                    assert forall|a: int| 0 <= a < self.records.len() implies #[trigger]
                        self.records[a] == pre.records[if a < n {
                        a
                    } else {
                        a + 1
                    }] by {}
                    assert(self.wf()) by {
                        assert forall|a: int, b: int|
                            0 <= a < b < self.records.len() implies #[trigger] self.records[a].id
                            < #[trigger] self.records[b].id by {
                            let a0 = if a < n { a } else { a + 1 };
                            let b0 = if b < n { b } else { b + 1 };
                            assert(pre.records[a0].id < pre.records[b0].id);
                        }
                    }
                    assert forall|k: EntityId| #[trigger]
                        self@.contains_key(k) <==> post.contains_key(k) by {
                        if self@.contains_key(k) {
                            let a = self.slot_of(k);
                            let a0 = if a < n { a } else { a + 1 };
                            assert(pre.records[a0].id == k);
                            pre.lemma_slot(a0);
                        }
                        if post.contains_key(k) {
                            let a0 = pre.slot_of(k);
                            pre.lemma_slot(a0);
                            let a = if a0 < n { a0 } else { a0 - 1 };
                            assert(self.records[a].id == k);
                        }
                    }
                    assert forall|k: EntityId| #[trigger] self@.contains_key(k) implies self@[k]
                        == post[k] by {
                        let a = self.slot_of(k);
                        self.lemma_slot(a);
                        pre.lemma_slot(if a < n { a } else { a + 1 });
                    }
                    assert(self@ =~= post);
                }
                true
            },
            None => {
                assert(self@ =~= pre@.remove(id));
                false
            },
        }
    }

    spec fn listed(&self, upto: int, id: EntityId, tag: Tag) -> bool {
        exists|j: int|
            0 <= j < upto && #[trigger] self.records[j].id == id
                && self.records[j].entity.kind.has_spec(tag)
    }

    /// Returns the identifiers of the entities that carry `tag`, in increasing order.
    pub fn query(&self, tag: Tag) -> (r: Vec<EntityId>)
        requires
            self.wf(),
        ensures
            forall|i: int, j: int| 0 <= i < j < r.len() ==> r[i] < r[j],
            forall|id: EntityId|
                r@.contains(id) <==> self@.contains_key(id) && self@[id].kind.has_spec(tag),
    {
        let mut found: Vec<EntityId> = Vec::new();
        let mut i: usize = 0;
        while i < self.records.len()
            invariant
                self.wf(),
                i <= self.records.len(),
                forall|a: int, b: int| 0 <= a < b < found.len() ==> found[a] < found[b],
                forall|a: int|
                    0 <= a < found.len() ==> self.listed(i as int, #[trigger] found[a], tag),
                forall|id: EntityId| self.listed(i as int, id, tag) ==> found@.contains(id),
            decreases self.records.len() - i,
        {
            let record = self.records[i];
            let ghost before = found@;
            if record.entity.kind.has(tag) {
                proof {
                    assert forall|a: int| 0 <= a < found.len() implies found[a] < record.id by {
                        assert(self.listed(i as int, found[a], tag));
                    }
                }
                found.push(record.id);
                assert(found@[before.len() as int] == record.id);
            }
            proof {
                assert forall|a: int| 0 <= a < found.len() implies self.listed(
                    i + 1,
                    #[trigger] found[a],
                    tag,
                ) by {
                    if a < before.len() {
                        assert(self.listed(i as int, before[a], tag));
                    } else {
                        assert(self.records[i as int].id == found[a]);
                    }
                }
                assert forall|id: EntityId| self.listed(i + 1, id, tag) implies found@.contains(
                    id,
                ) by {
                    let j = choose|j: int|
                        0 <= j < i + 1 && #[trigger] self.records[j].id == id
                            && self.records[j].entity.kind.has_spec(tag);
                    if j < i {
                        assert(self.listed(i as int, id, tag));
                        assert(before.contains(id));
                        let a = choose|a: int| 0 <= a < before.len() && before[a] == id;
                        assert(found@[a] == id);
                    } else {
                        assert(found@[before.len() as int] == id);
                    }
                }
            }
            i += 1;
        }
        proof {
            assert forall|id: EntityId|
                found@.contains(id) <==> self@.contains_key(id) && self@[id].kind.has_spec(tag) by {
                if found@.contains(id) {
                    let a = choose|a: int| 0 <= a < found.len() && found[a] == id;
                    assert(self.listed(i as int, found[a], tag));
                    let j = choose|j: int|
                        0 <= j < i && #[trigger] self.records[j].id == id
                            && self.records[j].entity.kind.has_spec(tag);
                    self.lemma_slot(j);
                }
                if self@.contains_key(id) && self@[id].kind.has_spec(tag) {
                    let j = self.slot_of(id);
                    self.lemma_slot(j);
                    assert(self.listed(i as int, id, tag));
                }
            }
        }
        found
    }
}

} // verus!
