//! The entity store: a table from integer identifiers to the records of the
//! live entities (the snake's head, its followers and the food).

use vstd::prelude::*;
use crate::grid::Position;
use crate::heading::SnakeHead;

verus! {

/// Side of the square drawn for the head and for food, in hundredths of a cell.
pub const HEAD_EXTENT: u32 = 80;

/// Side of the square drawn for a follower segment, in hundredths of a cell.
pub const SEGMENT_EXTENT: u32 = 65;

/// Side of the square drawn for food, in hundredths of a cell.
pub const FOOD_EXTENT: u32 = 80;

/// The logical extent of an entity, in hundredths of a cell.
#[derive(Clone, Copy, Debug, PartialEq, Eq, Structural)]
pub struct Size {
    pub width: u32,
    pub height: u32,
}

impl Size {
    /// A square of side `x`.
    pub fn square(x: u32) -> (size: Size)
        ensures
            size == (Size { width: x, height: x }),
    {
        Size { width: x, height: x }
    }
}

/// What an entity is. The head is a segment of the snake too.
#[derive(Clone, Copy, Debug, PartialEq, Eq, Structural)]
pub enum Role {
    Head(SnakeHead),
    Segment,
    Food,
}

/// The record of one live entity.
#[derive(Clone, Copy, Debug, PartialEq, Eq, Structural)]
pub struct Entity {
    pub position: Position,
    pub size: Size,
    pub role: Role,
}

impl Entity {
    /// The record of a head at `position`.
    pub open spec fn spec_head(position: Position, head: SnakeHead) -> Entity {
        Entity {
            position,
            size: Size { width: HEAD_EXTENT, height: HEAD_EXTENT },
            role: Role::Head(head),
        }
    }

    /// The record of a follower segment at `position`.
    pub open spec fn spec_segment(position: Position) -> Entity {
        Entity {
            position,
            size: Size { width: SEGMENT_EXTENT, height: SEGMENT_EXTENT },
            role: Role::Segment,
        }
    }

    /// The record of a food item at `position`.
    pub open spec fn spec_food(position: Position) -> Entity {
        Entity {
            position,
            size: Size { width: FOOD_EXTENT, height: FOOD_EXTENT },
            role: Role::Food,
        }
    }

    /// The same entity at another cell.
    pub open spec fn moved_to(self, position: Position) -> Entity {
        Entity { position, size: self.size, role: self.role }
    }

    /// The record of a head at `position`.
    #[verifier::when_used_as_spec(spec_head)]
    pub fn head(position: Position, head: SnakeHead) -> (e: Entity)
        ensures
            e == Entity::spec_head(position, head),
    {
        Entity { position, size: Size::square(HEAD_EXTENT), role: Role::Head(head) }
    }

    /// The record of a follower segment at `position`.
    #[verifier::when_used_as_spec(spec_segment)]
    pub fn segment(position: Position) -> (e: Entity)
        ensures
            e == Entity::spec_segment(position),
    {
        Entity { position, size: Size::square(SEGMENT_EXTENT), role: Role::Segment }
    }

    /// The record of a food item at `position`.
    #[verifier::when_used_as_spec(spec_food)]
    pub fn food(position: Position) -> (e: Entity)
        ensures
            e == Entity::spec_food(position),
    {
        Entity { position, size: Size::square(FOOD_EXTENT), role: Role::Food }
    }
}

/// The slots of a table: slot `i` holds the record of the entity with
/// identifier `i`, or nothing once that entity was destroyed. The identifiers
/// below the length are those that the table has handed out.
pub type Slots = Seq<Option<Entity>>;

/// The record that `slots` holds under `id`, if that entity is live.
pub open spec fn lookup(slots: Slots, id: int) -> Option<Entity> {
    if 0 <= id < slots.len() {
        slots[id]
    } else {
        None
    }
}

/// Whether `id` names a live entity.
pub open spec fn live(slots: Slots, id: int) -> bool {
    0 <= id < slots.len() && slots[id] is Some
}

/// The identifier that the next spawn hands out: the least one that has
/// named no entity yet.
pub open spec fn fresh_id(slots: Slots) -> int {
    slots.len() as int
}

/// The slots after `e` was spawned under a fresh identifier.
pub open spec fn spawned(slots: Slots, e: Entity) -> Slots {
    slots.push(Some(e))
}

/// The slots after the entity `id` was destroyed. An identifier that names
/// nothing leaves them as they are.
pub open spec fn despawned(slots: Slots, id: int) -> Slots {
    if 0 <= id < slots.len() {
        slots.update(id, None)
    } else {
        slots
    }
}

/// The slots after the live entity `id` got the record `e`. An identifier
/// that names nothing leaves them as they are.
pub open spec fn replaced(slots: Slots, id: int, e: Entity) -> Slots {
    if live(slots, id) {
        slots.update(id, Some(e))
    } else {
        slots
    }
}

/// The slots after every entity was destroyed: as many as before, all of
/// them empty, so that no identifier comes back.
pub open spec fn cleared(slots: Slots) -> Slots {
    Seq::new(slots.len(), |id: int| None)
}

/// No identifier is handed out twice: the fresh identifier is none of those
/// handed out before, and only a spawn moves it, by one. Destroying, replacing
/// and clearing leave it where it is.
pub proof fn lemma_fresh_id_is_new(slots: Slots, id: int, e: Entity)
    ensures
        !live(slots, fresh_id(slots)),
        forall|used: int| #[trigger] lookup(slots, used) is Some ==> used < fresh_id(slots),
        fresh_id(spawned(slots, e)) == fresh_id(slots) + 1,
        lookup(spawned(slots, e), fresh_id(slots)) == Some(e),
        forall|other: int|
            other != fresh_id(slots) ==> lookup(spawned(slots, e), other) == lookup(slots, other),
        fresh_id(despawned(slots, id)) == fresh_id(slots),
        fresh_id(replaced(slots, id, e)) == fresh_id(slots),
        fresh_id(cleared(slots)) == fresh_id(slots),
        forall|any: int| !live(cleared(slots), any),
{
}

/// The table of live entities. It hands out identifiers in ascending order
/// and never the same one twice.
#[derive(Clone, Debug, PartialEq, Eq)]
pub struct EntityTable {
    slots: Vec<Option<Entity>>,
}

impl View for EntityTable {
    type V = Slots;

    closed spec fn view(&self) -> Slots {
        self.slots@
    }
}

impl EntityTable {
    /// A table with no entity.
    pub fn new() -> (table: EntityTable)
        ensures
            table@ == Seq::<Option<Entity>>::empty(),
    {
        EntityTable { slots: Vec::new() }
    }

    /// The number of identifiers handed out so far: every live identifier is
    /// below it.
    pub fn slot_count(&self) -> (n: usize)
        ensures
            n == self@.len(),
    {
        self.slots.len()
    }

    /// The record of the entity `id`, if it is live.
    pub fn get(&self, id: usize) -> (found: Option<Entity>)
        ensures
            found == lookup(self@, id as int),
    {
        if id < self.slots.len() {
            self.slots[id]
        } else {
            None
        }
    }

    /// Adds `e` under a fresh identifier, and returns it. No identifier is
    /// handed out twice: it is the number of entities spawned before.
    pub fn spawn(&mut self, e: Entity) -> (id: usize)
        ensures
            id == fresh_id(old(self)@),
            !live(old(self)@, id as int),
            final(self)@ == spawned(old(self)@, e),
    {
        let id = self.slots.len();
        self.slots.push(Some(e));
        id
    }

    /// Destroys the entity `id`. An identifier that names nothing is ignored.
    pub fn despawn(&mut self, id: usize)
        ensures
            final(self)@ == despawned(old(self)@, id as int),
    {
        if id < self.slots.len() {
            self.slots.set(id, None);
        }
    }

    /// Gives the live entity `id` the record `e`. An identifier that names
    /// nothing is ignored.
    pub fn replace(&mut self, id: usize, e: Entity)
        ensures
            final(self)@ == replaced(old(self)@, id as int, e),
    {
        if id < self.slots.len() && self.slots[id].is_some() {
            self.slots.set(id, Some(e));
        }
    }

    /// Destroys every entity. The identifiers that were handed out stay
    /// taken.
    pub fn clear(&mut self)
        ensures
            final(self)@ == cleared(old(self)@),
    {
        let n = self.slots.len();
        let mut id: usize = 0;
        while id < n
            invariant
                id <= n,
                n == self.slots@.len(),
                forall|j: int| 0 <= j < id ==> (#[trigger] self.slots@[j]) is None,
            decreases n - id,
        {
            self.slots.set(id, None);
            id += 1;
        }
        assert(self.slots@ =~= cleared(old(self).slots@));
    }
}

} // verus!
