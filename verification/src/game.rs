//! The game: the entity table, the body chain and the signal queues, with one
//! function for each phase of a frame.

use vstd::prelude::*;
use crate::entity::{fresh_id, live, lookup, spawned, Entity, EntityTable, Role, Slots};
use crate::grid::{lemma_step_from_arena, Direction, Position};
use crate::heading::{PressedKeys, SnakeHead};
use crate::world::{
    food_at, lemma_after_eating, lemma_after_food, lemma_after_game_over, lemma_after_growth,
    lemma_after_input, lemma_after_movement, lemma_place, lemma_startup,
    start_follower, start_head, start_heading, World, START_X, START_Y,
};

verus! {

/// The time between two movement ticks, in milliseconds.
pub const MOVEMENT_TICK_MS: u64 = 150;

/// The time between two food spawns, in milliseconds.
pub const FOOD_SPAWN_TICK_MS: u64 = 1000;

/// The signal that the snake ate: it asks for one new segment.
#[derive(Clone, Copy, Debug, PartialEq, Eq, Structural)]
pub struct GrowthEvent;

/// The signal that the round is lost: it asks for a restart.
#[derive(Clone, Copy, Debug, PartialEq, Eq, Structural)]
pub struct GameOverEvent;

/// The identifiers of a body chain as mathematical integers.
pub open spec fn ids(segments: Seq<usize>) -> Seq<int> {
    segments.map_values(|id: usize| id as int)
}

/// Taking one more element of a sequence adds it to the filtered prefix if
/// and only if the predicate holds of it.
pub proof fn lemma_filter_step<A>(s: Seq<A>, pred: spec_fn(A) -> bool, k: int)
    requires
        0 <= k < s.len(),
    ensures
        s.take(k + 1).filter(pred).len() == s.take(k).filter(pred).len() + (if pred(s[k]) {
            1int
        } else {
            0int
        }),
{
    reveal(Seq::filter);
    assert(s.take(k + 1).drop_last() =~= s.take(k));
    assert(s.take(k + 1).last() == s[k]);
}

/// The cells of the food items in `slots`, by ascending identifier.
pub open spec fn food_cells(slots: Slots) -> Seq<Position>
    decreases slots.len(),
{
    if slots.len() == 0 {
        Seq::empty()
    } else {
        match slots.last() {
            Some(e) if e.role is Food => food_cells(slots.drop_last()).push(e.position),
            _ => food_cells(slots.drop_last()),
        }
    }
}

/// Taking one more slot adds its cell to the food cells of the prefix if and
/// only if the slot holds food.
pub proof fn lemma_food_cells_step(slots: Slots, k: int)
    requires
        0 <= k < slots.len(),
    ensures
        food_cells(slots.take(k + 1)) == (match slots[k] {
            Some(e) if e.role is Food => food_cells(slots.take(k)).push(e.position),
            _ => food_cells(slots.take(k)),
        }),
        food_cells(slots.take(0)) == Seq::<Position>::empty(),
{
    assert(slots.take(k + 1).drop_last() =~= slots.take(k));
    assert(slots.take(k + 1).last() == slots[k]);
}

/// Spawns one follower segment at `position` and returns its identifier,
/// which has named no entity before.
pub fn spawn_segment(entities: &mut EntityTable, position: Position) -> (id: usize)
    ensures
        id == fresh_id(old(entities)@),
        !live(old(entities)@, id as int),
        final(entities)@ == spawned(old(entities)@, Entity::spec_segment(position)),
{
    entities.spawn(Entity::segment(position))
}

/// The startup routine: forgets the tracked segments, spawns the head at the
/// start cell, heading up, then one follower in the cell below it.
///
/// The list is replaced, not appended to, and the two identifiers are fresh:
/// neither is among the identifiers that the list held before, as far as this
/// table handed them out.
pub fn spawn_snake(entities: &mut EntityTable, segments: &mut Vec<usize>)
    ensures
        final(entities)@ == spawned(
            spawned(old(entities)@, Entity::spec_head(start_head(), start_heading())),
            Entity::spec_segment(start_follower()),
        ),
        ids(final(segments)@) == seq![fresh_id(old(entities)@), fresh_id(old(entities)@) + 1],
        final(segments)@.len() == 2,
        forall|i: int|
            0 <= i < old(segments)@.len() && old(segments)@[i] < old(entities)@.len()
                ==> !final(segments)@.contains(#[trigger] old(segments)@[i]),
        forall|i: int|
            0 <= i < final(segments)@.len() ==> !live(
                old(entities)@,
                #[trigger] final(segments)@[i] as int,
            ),
{
    let head = entities.spawn(
        Entity::head(Position { x: START_X, y: START_Y }, SnakeHead::heading(Direction::Up)),
    );
    let follower = spawn_segment(entities, Position { x: START_X, y: START_Y - 1 });
    segments.clear();
    segments.push(head);
    segments.push(follower);
    assert(ids(segments@) =~= seq![head as int, follower as int]);
}

/// Whether `cells` holds `p`.
fn holds(cells: &Vec<Position>, p: Position) -> (found: bool)
    ensures
        found == cells@.contains(p),
{
    let mut i: usize = 0;
    while i < cells.len()
        invariant
            i <= cells@.len(),
            forall|j: int| 0 <= j < i ==> cells@[j] != p,
        decreases cells@.len() - i,
    {
        if cells[i] == p {
            return true;
        }
        i += 1;
    }
    false
}

/// The state of one game.
#[derive(Clone, Debug, PartialEq, Eq)]
pub struct Game {
    entities: EntityTable,
    segments: Vec<usize>,
    last_tail_position: Option<Position>,
    growth_events: Vec<GrowthEvent>,
    game_over_events: Vec<GameOverEvent>,
}

impl View for Game {
    type V = World;

    closed spec fn view(&self) -> World {
        World {
            entities: self.entities@,
            segments: ids(self.segments@),
            last_tail: self.last_tail_position,
            growth: self.growth_events@.len(),
            game_over: self.game_over_events@.len(),
        }
    }
}

impl Game {
    /// A game at the start of its first round.
    pub fn new() -> (game: Game)
        ensures
            game@ == World::startup(),
            game@.valid(),
    {
        let mut entities = EntityTable::new();
        let mut segments: Vec<usize> = Vec::new();
        spawn_snake(&mut entities, &mut segments);
        proof {
            lemma_startup();
        }
        Game {
            entities,
            segments,
            last_tail_position: None,
            growth_events: Vec::new(),
            game_over_events: Vec::new(),
        }
    }

    /// The identifier, the record and the headings of the head.
    fn head_record(&self) -> (found: (usize, Entity, SnakeHead))
        requires
            self@.valid(),
        ensures
            found.0 == self@.head_id(),
            found.1 == self@.head_entity(),
            found.2 == self@.head(),
            found.1.role == Role::Head(found.2),
    {
        proof {
            lemma_place(self@, 0);
        }
        let id = self.segments[0];
        match self.entities.get(id) {
            Some(entity) => match entity.role {
                Role::Head(head) => (id, entity, head),
                _ => (id, entity, SnakeHead::heading(Direction::Up)),
            },
            None => (
                id,
                Entity::segment(Position { x: START_X, y: START_Y }),
                SnakeHead::heading(Direction::Up),
            ),
        }
    }

    /// The direction resolver: one input pass over the held keys. The first
    /// held key in the order right, up, down, left becomes the pending
    /// heading, unless it reverses the heading that the last move took.
    pub fn snake_movement_input(&mut self, keys: PressedKeys)
        requires
            old(self)@.valid(),
        ensures
            final(self)@ == old(self)@.after_input(keys),
            final(self)@.valid(),
    {
        let (id, entity, mut head) = self.head_record();
        head.steer(keys);
        self.entities.replace(
            id,
            Entity { position: entity.position, size: entity.size, role: Role::Head(head) },
        );
        proof {
            lemma_place(old(self)@, 0);
            lemma_after_input(old(self)@, keys);
            assert(self@.entities =~= old(self)@.after_input(keys).entities);
        }
    }

    /// The handler of the restart key. It does nothing.
    pub fn restart_game(&mut self)
        ensures
            *final(self) == *old(self),
    {
    }

    /// Puts one game-over signal into its queue.
    pub fn send_game_over(&mut self)
        ensures
            final(self)@ == old(self)@.with_game_over_signal(),
            old(self)@.valid() ==> final(self)@.valid(),
    {
        self.game_over_events.push(GameOverEvent);
    }

    /// Puts one growth signal into its queue.
    pub fn send_growth(&mut self)
        ensures
            final(self)@ == old(self)@.with_growth_signal(),
            old(self)@.valid() ==> final(self)@.valid(),
    {
        self.growth_events.push(GrowthEvent);
    }

    /// The movement engine and the fatal-collision judge: one move.
    ///
    /// The head steps one cell along its pending heading, which becomes the
    /// heading last taken. Every follower takes the cell that the segment
    /// ahead of it held before the move, and the cell that the tail left is
    /// put on record. A game-over signal is sent if the head left the arena,
    /// and one if it entered a cell that a segment held before the move.
    pub fn snake_movement(&mut self)
        requires
            old(self)@.valid(),
            old(self)@.game_over == 0,
        ensures
            final(self)@ == old(self)@.after_movement(),
            final(self)@.valid(),
            final(self)@.segments == old(self)@.segments,
    {
        let ghost w = self@;
        let n = self.segments.len();
        let mut snapshot: Vec<Position> = Vec::new();
        let mut i: usize = 0;
        while i < n
            invariant
                i <= n,
                n == self.segments@.len(),
                self@ == w,
                w.valid(),
                snapshot@.len() == i,
                forall|j: int| 0 <= j < i ==> snapshot@[j] == w.body()[j],
            decreases n - i,
        {
            proof {
                lemma_place(w, i as int);
            }
            match self.entities.get(self.segments[i]) {
                Some(entity) => {
                    snapshot.push(entity.position);
                },
                None => {},
            }
            i += 1;
        }
        assert(snapshot@ =~= w.body());
        let (head_id, head_entity, mut head) = self.head_record();
        proof {
            lemma_step_from_arena(head_entity.position, head.direction);
            lemma_place(w, 0);
        }
        let next = head_entity.position.step(head.direction);
        head.advance();
        self.entities.replace(
            head_id,
            Entity { position: next, size: head_entity.size, role: Role::Head(head) },
        );
        assert(self.entities@ =~= w.shifted(1)) by {
            assert forall|id: int| 0 <= id < w.entities.len() implies self.entities@[id]
                == w.shifted_slot(id, 1) by {
                if w.tracks(id) && w.place(id) == 0 {
                    assert(id == head_id);
                }
            }
        }
        if !next.in_bounds() {
            self.game_over_events.push(GameOverEvent);
        }
        if holds(&snapshot, next) {
            self.game_over_events.push(GameOverEvent);
        }
        let mut k: usize = 1;
        while k < n
            invariant
                1 <= k <= n,
                n == self.segments@.len(),
                ids(self.segments@) == w.segments,
                w.valid(),
                snapshot@ == w.body(),
                self.entities@ == w.shifted(k as int),
                self.growth_events@.len() == w.growth,
                self.game_over_events@.len() == w.after_movement().game_over,
            decreases n - k,
        {
            let id = self.segments[k];
            proof {
                lemma_place(w, k as int);
            }
            match self.entities.get(id) {
                Some(entity) => {
                    self.entities.replace(
                        id,
                        Entity {
                            position: snapshot[k - 1],
                            size: entity.size,
                            role: entity.role,
                        },
                    );
                },
                None => {},
            }
            assert(self.entities@ =~= w.shifted(k + 1)) by {
                assert forall|j: int| 0 <= j < w.entities.len() implies self.entities@[j]
                    == w.shifted_slot(j, k + 1) by {
                    if w.tracks(j) && w.place(j) == k {
                        assert(j == id);
                    }
                }
            }
            k += 1;
        }
        self.last_tail_position = Some(snapshot[n - 1]);
        proof {
            lemma_after_movement(w);
            assert(self@.entities =~= w.after_movement().entities);
        }
    }

    /// The consumption judge: every food item in the head's cell is destroyed
    /// and sends one growth signal.
    pub fn snake_eating(&mut self)
        requires
            old(self)@.valid(),
        ensures
            final(self)@ == old(self)@.after_eating(),
            final(self)@.valid(),
    {
        let ghost w = self@;
        let (_, head_entity, _) = self.head_record();
        let cell = head_entity.position;
        let n = self.entities.slot_count();
        let mut id: usize = 0;
        while id < n
            invariant
                id <= n,
                n == w.entities.len(),
                self.entities@.len() == n,
                cell == w.head_entity().position,
                forall|j: int|
                    0 <= j < id ==> #[trigger] self.entities@[j] == (if food_at(cell)(
                        w.entities[j],
                    ) {
                        None
                    } else {
                        w.entities[j]
                    }),
                forall|j: int| id <= j < n ==> #[trigger] self.entities@[j] == w.entities[j],
                self.growth_events@.len() == w.growth + w.entities.take(id as int).filter(
                    food_at(cell),
                ).len(),
                self.segments@ == old(self).segments@,
                self.last_tail_position == old(self).last_tail_position,
                self.game_over_events@ == old(self).game_over_events@,
            decreases n - id,
        {
            proof {
                lemma_filter_step(w.entities, food_at(cell), id as int);
            }
            match self.entities.get(id) {
                Some(entity) => {
                    let is_food = match entity.role {
                        Role::Food => true,
                        _ => false,
                    };
                    if is_food && entity.position == cell {
                        self.entities.despawn(id);
                        self.growth_events.push(GrowthEvent);
                    }
                },
                None => {},
            }
            id += 1;
        }
        proof {
            assert(w.entities.take(n as int) =~= w.entities);
            assert(self.entities@ =~= w.after_eating().entities);
            lemma_after_eating(w);
        }
    }

    /// The growth handler: consumes every waiting growth signal, and for each
    /// of them appends one segment at the cell that the tail left at the last
    /// move.
    pub fn snake_growth(&mut self)
        requires
            old(self)@.valid(),
            old(self)@.growth > 0 ==> old(self)@.last_tail is Some,
        ensures
            final(self)@ == old(self)@.after_growth(),
            final(self)@.valid(),
    {
        let ghost w = self@;
        match self.last_tail_position {
            Some(tail) => {
                let n = self.growth_events.len();
                let mut k: usize = 0;
                while k < n
                    invariant
                        k <= n,
                        n == w.growth,
                        self@.grown_by((n - k) as nat, tail) == w.grown_by(n as nat, tail),
                        self.last_tail_position == Some(tail),
                    decreases n - k,
                {
                    let ghost before = self@;
                    let id = spawn_segment(&mut self.entities, tail);
                    self.segments.push(id);
                    assert(self@ == before.grown(tail)) by {
                        assert(self@.segments =~= before.grown(tail).segments);
                    }
                    k += 1;
                }
                self.growth_events.clear();
                assert(self@ == w.after_growth());
            },
            None => {},
        }
        proof {
            lemma_after_growth(w);
        }
    }

    /// The round controller: if any game-over signal waits, consumes them
    /// all, destroys every segment and every food item, and runs the startup
    /// routine once.
    ///
    /// The new snake gets fresh identifiers: after a reset nothing that lived
    /// before is live, and no identifier of the old chain is live or part of
    /// the new chain.
    pub fn game_over(&mut self)
        requires
            old(self)@.valid(),
        ensures
            final(self)@ == old(self)@.after_game_over(),
            final(self)@.valid(),
            final(self)@.game_over == 0,
            old(self)@.game_over > 0 ==> {
                &&& final(self)@.segments.len() == 2
                &&& forall|id: int|
                    0 <= id < old(self)@.entities.len() ==> !live(final(self)@.entities, id)
                &&& forall|i: int|
                    0 <= i < old(self)@.segments.len() ==> !final(self)@.segments.contains(
                        #[trigger] old(self)@.segments[i],
                    ) && !live(final(self)@.entities, old(self)@.segments[i])
            },
    {
        if self.game_over_events.len() > 0 {
            self.game_over_events.clear();
            self.entities.clear();
            spawn_snake(&mut self.entities, &mut self.segments);
        }
        proof {
            lemma_after_game_over(old(self)@);
        }
    }

    /// The food spawner: one new food item in `cell`, whatever the cell holds.
    pub fn food_spawner(&mut self, cell: Position)
        requires
            old(self)@.valid(),
            cell.in_arena(),
        ensures
            final(self)@ == old(self)@.after_food(cell),
            final(self)@.valid(),
    {
        self.entities.spawn(Entity::food(cell));
        proof {
            lemma_after_food(old(self)@, cell);
        }
    }

    /// One movement tick: move, eat, grow, then handle a game over.
    pub fn tick(&mut self)
        requires
            old(self)@.valid(),
            old(self)@.game_over == 0,
        ensures
            final(self)@ == old(self)@.after_tick(),
            final(self)@.valid(),
            final(self)@.game_over == 0,
            final(self)@.growth == 0,
    {
        self.snake_movement();
        self.snake_eating();
        self.snake_growth();
        self.game_over();
    }

    /// One frame, in its fixed order: the input pass, then a movement tick if
    /// one is due, then the spawn of a food item if one is due.
    pub fn update(&mut self, keys: PressedKeys, tick_due: bool, food: Option<Position>)
        requires
            old(self)@.valid(),
            old(self)@.game_over == 0,
            food matches Some(cell) ==> cell.in_arena(),
        ensures
            final(self)@ == old(self)@.after_frame(keys, tick_due, food),
            final(self)@.valid(),
            final(self)@.game_over == 0,
    {
        self.snake_movement_input(keys);
        if tick_due {
            self.tick();
        }
        match food {
            Some(cell) => {
                self.food_spawner(cell);
            },
            None => {},
        }
    }

    /// The number of segments of the snake, the head included.
    pub fn len(&self) -> (n: usize)
        ensures
            n == self@.segments.len(),
    {
        self.segments.len()
    }

    /// The identifiers of the segments in body order, head first.
    pub fn segment_ids(&self) -> (found: Vec<usize>)
        ensures
            ids(found@) == self@.segments,
    {
        let mut found: Vec<usize> = Vec::new();
        let mut i: usize = 0;
        while i < self.segments.len()
            invariant
                i <= self.segments@.len(),
                found@ == self.segments@.take(i as int),
            decreases self.segments@.len() - i,
        {
            found.push(self.segments[i]);
            assert(found@ =~= self.segments@.take(i + 1));
            i += 1;
        }
        assert(found@ =~= self.segments@);
        found
    }

    /// The cells of the segments in body order, head first.
    pub fn positions(&self) -> (cells: Vec<Position>)
        requires
            self@.valid(),
        ensures
            cells@ == self@.body(),
    {
        let mut cells: Vec<Position> = Vec::new();
        let mut i: usize = 0;
        while i < self.segments.len()
            invariant
                i <= self.segments@.len(),
                self@.valid(),
                cells@.len() == i,
                forall|j: int| 0 <= j < i ==> cells@[j] == self@.body()[j],
            decreases self.segments@.len() - i,
        {
            proof {
                lemma_place(self@, i as int);
            }
            match self.entities.get(self.segments[i]) {
                Some(entity) => {
                    cells.push(entity.position);
                },
                None => {},
            }
            i += 1;
        }
        assert(cells@ =~= self@.body());
        cells
    }

    /// The two headings of the head.
    pub fn head(&self) -> (head: SnakeHead)
        requires
            self@.valid(),
        ensures
            head == self@.head(),
    {
        self.head_record().2
    }

    /// The cell of the head.
    pub fn head_position(&self) -> (cell: Position)
        requires
            self@.valid(),
        ensures
            cell == self@.head_entity().position,
    {
        self.head_record().1.position
    }

    /// The number of slots of the entity table: every live identifier is
    /// below it.
    pub fn slot_count(&self) -> (n: usize)
        ensures
            n == self@.entities.len(),
    {
        self.entities.slot_count()
    }

    /// The record of the entity `id`, if it is live.
    pub fn entity(&self, id: usize) -> (found: Option<Entity>)
        ensures
            found == lookup(self@.entities, id as int),
    {
        self.entities.get(id)
    }

    /// The cells of the food items, by ascending identifier.
    pub fn food_positions(&self) -> (cells: Vec<Position>)
        ensures
            cells@ == food_cells(self@.entities),
    {
        let n = self.entities.slot_count();
        let mut cells: Vec<Position> = Vec::new();
        let mut id: usize = 0;
        while id < n
            invariant
                id <= n,
                n == self.entities@.len(),
                cells@ == food_cells(self.entities@.take(id as int)),
            decreases n - id,
        {
            proof {
                lemma_food_cells_step(self.entities@, id as int);
            }
            match self.entities.get(id) {
                Some(entity) => {
                    match entity.role {
                        Role::Food => {
                            cells.push(entity.position);
                        },
                        _ => {},
                    }
                },
                None => {},
            }
            id += 1;
        }
        assert(self.entities@.take(n as int) =~= self.entities@);
        cells
    }

    /// The cell that the tail left at the most recent move, if there was one.
    pub fn last_tail_position(&self) -> (cell: Option<Position>)
        ensures
            cell == self@.last_tail,
    {
        self.last_tail_position
    }

    /// The number of growth signals that wait.
    pub fn pending_growth(&self) -> (n: usize)
        ensures
            n == self@.growth,
    {
        self.growth_events.len()
    }

    /// The number of game-over signals that wait.
    pub fn pending_game_over(&self) -> (n: usize)
        ensures
            n == self@.game_over,
    {
        self.game_over_events.len()
    }
}

} // verus!
