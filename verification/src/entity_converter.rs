//! Which entity stands for which identifier from outside.

use crate::entity::EntityId;
use vstd::prelude::*;

verus! {

/// An entity and the identifier that it goes by outside.
#[derive(Clone, Copy, Debug, PartialEq, Eq, Structural)]
pub struct Record {
    pub entity: EntityId,
    pub external_id: u32,
}

/// `i` is the first record that goes by `external_id`.
pub open spec fn is_first_by_external_id(records: Seq<Record>, external_id: u32, i: int) -> bool {
    &&& 0 <= i < records.len()
    &&& records[i].external_id == external_id
    &&& forall|j: int| 0 <= j < i ==> (#[trigger] records[j]).external_id != external_id
}

/// `i` is the first record of `entity`.
pub open spec fn is_first_of_entity(records: Seq<Record>, entity: EntityId, i: int) -> bool {
    &&& 0 <= i < records.len()
    &&& records[i].entity == entity
    &&& forall|j: int| 0 <= j < i ==> (#[trigger] records[j]).entity != entity
}

/// The records without record `i`: the last record takes its place.
pub open spec fn without(records: Seq<Record>, i: int) -> Seq<Record> {
    records.update(i, records.last()).drop_last()
}

/// The entities that stand for what is known from outside by an identifier.
pub struct EntityConverter {
    data: Vec<Record>,
}

impl View for EntityConverter {
    type V = Seq<Record>;

    closed spec fn view(&self) -> Seq<Record> {
        self.data@
    }
}

impl EntityConverter {
    /// A converter without records.
    pub fn new() -> (converter: Self)
        ensures
            converter@ == Seq::<Record>::empty(),
    {
        EntityConverter { data: Vec::new() }
    }

    /// The entity that stands for `external_id`: that of the first record
    /// that goes by it, if there is one.
    pub fn to_internal(&self, external_id: u32) -> (entity: Option<EntityId>)
        ensures
            match entity {
                Some(entity) => exists|i: int|
                    is_first_by_external_id(self@, external_id, i) && self@[i].entity == entity,
                None => forall|i: int|
                    0 <= i < self@.len() ==> (#[trigger] self@[i]).external_id != external_id,
            },
    {
        let mut i: usize = 0;
        while i < self.data.len()
            invariant
                i <= self.data@.len(),
                forall|j: int| 0 <= j < i ==> (#[trigger] self.data@[j]).external_id != external_id,
            decreases self.data@.len() - i,
        {
            let record = self.data[i];
            if record.external_id == external_id {
                assert(is_first_by_external_id(self@, external_id, i as int));
                return Some(record.entity);
            }
            i = i + 1;
        }
        None
    }

    /// Notes that `entity` stands for `external_id`.
    pub fn insert(&mut self, entity: EntityId, external_id: u32)
        ensures
            final(self)@ == old(self)@.push(Record { entity, external_id }),
    {
        self.data.push(Record { entity, external_id });
    }

    /// Forgets the first record of `entity`, if it has one; the last record
    /// takes its place.
    pub fn remove(&mut self, entity: EntityId)
        ensures
            forall|i: int|
                is_first_of_entity(old(self)@, entity, i) ==> final(self)@ == without(old(self)@, i),
            (forall|i: int| 0 <= i < old(self)@.len() ==> (#[trigger] old(self)@[i]).entity != entity)
                ==> final(self)@ == old(self)@,
    {
        let mut i: usize = 0;
        while i < self.data.len()
            invariant
                i <= self.data@.len(),
                self.data@ == old(self)@,
                forall|j: int| 0 <= j < i ==> (#[trigger] self.data@[j]).entity != entity,
            decreases self.data@.len() - i,
        {
            if self.data[i].entity == entity {
                proof {
                    assert forall|k: int| is_first_of_entity(old(self)@, entity, k) implies k == i by {
                        if k < i {
                            assert(old(self)@[k].entity != entity);
                        }
                        if i < k {
                            assert(old(self)@[i as int].entity != entity);
                        }
                    }
                }
                self.data.swap_remove(i);
                return ;
            }
            i = i + 1;
        }
    }
}

} // verus!
