//! The mathematical model of the simulation: the state of the world and the
//! step that each phase of the game takes from one state to the next.

use vstd::prelude::*;
use crate::entity::{cleared, fresh_id, live, lookup, spawned, Entity, Role, Slots};
use crate::grid::{lemma_step_from_arena, Direction, Position};
use crate::heading::{PressedKeys, SnakeHead};

verus! {

/// The column in which the snake starts a round.
pub const START_X: i32 = 10;

/// The row in which the head starts a round; the one follower starts in the
/// row below it.
pub const START_Y: i32 = 20;

/// The cell where the head starts a round.
pub open spec fn start_head() -> Position {
    Position { x: START_X, y: START_Y }
}

/// The cell where the one follower starts a round.
pub open spec fn start_follower() -> Position {
    Position { x: START_X, y: (START_Y - 1) as i32 }
}

/// The heading with which the head starts a round.
pub open spec fn start_heading() -> SnakeHead {
    SnakeHead { last_direction: Direction::Up, direction: Direction::Up }
}

/// The predicate that holds of a slot with a food item at `p`.
pub open spec fn food_at(p: Position) -> spec_fn(Option<Entity>) -> bool {
    |slot: Option<Entity>| slot matches Some(e) && e.role is Food && e.position == p
}

/// The state of the world between two phases.
pub ghost struct World {
    /// The entity table: slot `id` holds the record of entity `id`.
    pub entities: Slots,
    /// The identifiers of the snake's segments in body order, head first.
    pub segments: Seq<int>,
    /// The cell that the tail left at the most recent move.
    pub last_tail: Option<Position>,
    /// The number of growth signals that wait to be consumed.
    pub growth: nat,
    /// The number of game-over signals that wait to be consumed.
    pub game_over: nat,
}

impl World {
    /// The record of the `i`-th segment in body order.
    pub open spec fn record(self, i: int) -> Entity {
        self.entities[self.segments[i]].unwrap()
    }

    /// The identifier of the head.
    pub open spec fn head_id(self) -> int {
        self.segments[0]
    }

    /// The record of the head.
    pub open spec fn head_entity(self) -> Entity {
        self.record(0)
    }

    /// The two headings of the head.
    pub open spec fn head(self) -> SnakeHead {
        match self.head_entity().role {
            Role::Head(h) => h,
            _ => start_heading(),
        }
    }

    /// The cells of the segments in body order, head first.
    pub open spec fn body(self) -> Seq<Position> {
        Seq::new(self.segments.len(), |i: int| self.record(i).position)
    }

    /// Whether `id` is the identifier of a segment of the snake.
    pub open spec fn tracks(self, id: int) -> bool {
        exists|i: int| 0 <= i < self.segments.len() && self.segments[i] == id
    }

    /// The place of the segment `id` in body order.
    pub open spec fn place(self, id: int) -> int {
        choose|i: int| 0 <= i < self.segments.len() && self.segments[i] == id
    }

    /// The invariant of the world.
    ///
    /// The snake is not empty and no identifier occurs twice in it. Its first
    /// segment is the one head, the others are followers, each of them live,
    /// and no other entity is part of a snake. The pending heading does not
    /// reverse the heading last taken. Every follower, every food item and
    /// the cell on record lie inside the arena; the head is outside it only
    /// while a game-over signal waits.
    pub open spec fn valid(self) -> bool {
        &&& self.segments.len() >= 1
        &&& self.segments.no_duplicates()
        &&& forall|i: int|
            0 <= i < self.segments.len() ==> live(self.entities, #[trigger] self.segments[i])
        &&& self.head_entity().role is Head
        &&& forall|i: int|
            1 <= i < self.segments.len() ==> self.entities[#[trigger] self.segments[i]].unwrap().role
                is Segment
        &&& forall|id: int|
            live(self.entities, id) && !((#[trigger] self.entities[id]).unwrap().role is Food)
                ==> self.tracks(id)
        &&& self.head().valid()
        &&& forall|id: int|
            live(self.entities, id) && id != self.head_id() ==> (#[trigger] self.entities[id]).unwrap().position.in_arena()
        &&& self.last_tail matches Some(cell) ==> cell.in_arena()
        &&& self.game_over == 0 ==> self.head_entity().position.in_arena()
    }

    /// A world without entities and without signals.
    pub open spec fn empty() -> World {
        World {
            entities: Seq::empty(),
            segments: Seq::empty(),
            last_tail: None,
            growth: 0,
            game_over: 0,
        }
    }

    /// The world after the startup routine: the tracked segments are
    /// forgotten, then a head is spawned at the start cell, heading up, and
    /// one follower below it.
    pub open spec fn with_new_snake(self) -> World {
        let with_head = spawned(self.entities, Entity::spec_head(start_head(), start_heading()));
        World {
            entities: spawned(with_head, Entity::spec_segment(start_follower())),
            segments: seq![fresh_id(self.entities), fresh_id(with_head)],
            ..self
        }
    }

    /// The world at the start of the first round.
    pub open spec fn startup() -> World {
        World::empty().with_new_snake()
    }

    /// The world after one input pass over the held keys.
    pub open spec fn after_input(self, keys: PressedKeys) -> World {
        let head = Entity {
            role: Role::Head(self.head().steered(keys)),
            ..self.head_entity()
        };
        World { entities: self.entities.update(self.head_id(), Some(head)), ..self }
    }

    /// The cell that the head enters at the next move.
    pub open spec fn next_head(self) -> Position {
        self.head_entity().position.spec_step(self.head().direction)
    }

    /// Whether the next move takes the head out of the arena.
    pub open spec fn hits_wall(self) -> bool {
        !self.next_head().in_arena()
    }

    /// Whether the next move takes the head into a cell that a segment holds
    /// before the move.
    pub open spec fn hits_body(self) -> bool {
        self.body().contains(self.next_head())
    }

    /// The slot `id` after a move in which only the first `k` segments in body
    /// order have moved: the head has stepped and taken its pending heading,
    /// each follower stands where the segment ahead of it stood.
    pub open spec fn shifted_slot(self, id: int, k: int) -> Option<Entity> {
        if self.tracks(id) && self.place(id) < k {
            if self.place(id) == 0 {
                Some(
                    Entity {
                        position: self.next_head(),
                        role: Role::Head(self.head().advanced()),
                        ..self.head_entity()
                    },
                )
            } else {
                Some(self.entities[id].unwrap().moved_to(self.body()[self.place(id) - 1]))
            }
        } else {
            self.entities[id]
        }
    }

    /// The entity table after a move in which only the first `k` segments have
    /// moved.
    pub open spec fn shifted(self, k: int) -> Slots {
        Seq::new(self.entities.len(), |id: int| self.shifted_slot(id, k))
    }

    /// The world after one move. Each fatal condition adds a game-over signal
    /// of its own.
    pub open spec fn after_movement(self) -> World {
        World {
            entities: self.shifted(self.segments.len() as int),
            segments: self.segments,
            last_tail: Some(self.body().last()),
            growth: self.growth,
            game_over: self.game_over + (if self.hits_wall() { 1nat } else { 0nat }) + (
            if self.hits_body() { 1nat } else { 0nat }),
        }
    }

    /// The world after the eating phase: every food item in the head's cell
    /// is destroyed, and each of them adds a growth signal.
    pub open spec fn after_eating(self) -> World {
        let eaten = food_at(self.head_entity().position);
        World {
            entities: self.entities.map_values(
                |slot: Option<Entity>|
                    if eaten(slot) {
                        None
                    } else {
                        slot
                    },
            ),
            growth: self.growth + self.entities.filter(eaten).len(),
            ..self
        }
    }

    /// The world after one new segment was appended to the snake at `tail`.
    pub open spec fn grown(self, tail: Position) -> World {
        World {
            entities: spawned(self.entities, Entity::spec_segment(tail)),
            segments: self.segments.push(fresh_id(self.entities)),
            ..self
        }
    }

    /// The world after `n` new segments were appended at `tail`, one by one.
    pub open spec fn grown_by(self, n: nat, tail: Position) -> World
        decreases n,
    {
        if n == 0 {
            self
        } else {
            self.grown(tail).grown_by((n - 1) as nat, tail)
        }
    }

    /// The world after the growth phase: each waiting growth signal is
    /// consumed and appends one segment at the cell that the tail left last.
    /// Where no such cell is on record, nothing is consumed.
    pub open spec fn after_growth(self) -> World {
        match self.last_tail {
            Some(tail) => World { growth: 0, ..self.grown_by(self.growth, tail) },
            None => self,
        }
    }

    /// The world with one more game-over signal waiting.
    pub open spec fn with_game_over_signal(self) -> World {
        World { game_over: self.game_over + 1, ..self }
    }

    /// The world with one more growth signal waiting.
    pub open spec fn with_growth_signal(self) -> World {
        World { growth: self.growth + 1, ..self }
    }

    /// The world after the game-over phase. If any game-over signal waits, all
    /// of them are consumed, every entity is destroyed and the startup routine
    /// runs once, under two fresh identifiers; else nothing changes.
    pub open spec fn after_game_over(self) -> World {
        if self.game_over == 0 {
            self
        } else {
            World {
                entities: cleared(self.entities),
                segments: Seq::empty(),
                game_over: 0,
                ..self
            }.with_new_snake()
        }
    }

    /// The world after a food item was spawned in `cell`.
    pub open spec fn after_food(self, cell: Position) -> World {
        World { entities: spawned(self.entities, Entity::spec_food(cell)), ..self }
    }

    /// The world after one movement tick: move, eat, grow, then handle a
    /// game over, in this order.
    pub open spec fn after_tick(self) -> World {
        self.after_movement().after_eating().after_growth().after_game_over()
    }

    /// The number of growth signals that wait when the growth phase of the
    /// next movement tick begins.
    pub open spec fn growth_fired(self) -> nat {
        self.after_movement().after_eating().growth
    }

    /// Whether a growth signal waits when the growth phase of the next
    /// movement tick begins.
    pub open spec fn growth_fires(self) -> bool {
        self.growth_fired() > 0
    }

    /// Whether the next movement tick sends a game-over signal.
    pub open spec fn game_over_fires(self) -> bool {
        self.hits_wall() || self.hits_body()
    }

    /// The world after one frame: an input pass, then a movement tick if one
    /// is due, then the spawn of a food item if one is due.
    pub open spec fn after_frame(self, keys: PressedKeys, tick_due: bool, food: Option<Position>) -> World {
        let steered = self.after_input(keys);
        let ticked = if tick_due {
            steered.after_tick()
        } else {
            steered
        };
        match food {
            Some(cell) => ticked.after_food(cell),
            None => ticked,
        }
    }
}

/// In a valid world the `i`-th segment is tracked, and its place is `i`.
pub proof fn lemma_place(w: World, i: int)
    requires
        w.valid(),
        0 <= i < w.segments.len(),
    ensures
        w.tracks(w.segments[i]),
        w.place(w.segments[i]) == i,
        live(w.entities, w.segments[i]),
{
}

/// The startup routine on an empty table gives the head the identifier 0 and
/// the follower the identifier 1.
pub proof fn lemma_startup()
    ensures
        World::startup().entities =~= seq![
            Some(Entity::spec_head(start_head(), start_heading())),
            Some(Entity::spec_segment(start_follower())),
        ],
        World::startup().segments =~= seq![0int, 1int],
        World::startup().body() =~= seq![start_head(), start_follower()],
        World::startup().head() == start_heading(),
        World::startup().last_tail == None::<Position>,
        World::startup().growth == 0,
        World::startup().game_over == 0,
        World::startup().valid(),
{
    let none = Seq::<Option<Entity>>::empty();
    let head = Entity::spec_head(start_head(), start_heading());
    let one = spawned(none, head);
    assert(one =~= seq![Some(head)]);
    let w = World::startup();
    assert(w.entities =~= seq![Some(head), Some(Entity::spec_segment(start_follower()))]);
    assert(w.segments =~= seq![0int, 1int]);
    assert(w.segments[0] == 0 && w.segments[1] == 1);
    assert(w.body() =~= seq![start_head(), start_follower()]);
    assert forall|id: int|
        live(w.entities, id) && !((#[trigger] w.entities[id]).unwrap().role is Food) implies w.tracks(
        id,
    ) by {
        assert(w.segments[id] == id);
    }
}

/// An input pass changes the pending heading of the head and nothing else,
/// and keeps the world valid.
pub proof fn lemma_after_input(w: World, keys: PressedKeys)
    requires
        w.valid(),
    ensures
        w.after_input(keys).valid(),
        w.after_input(keys).head() == w.head().steered(keys),
        w.after_input(keys).body() =~= w.body(),
        w.after_input(keys).segments == w.segments,
{
    let v = w.after_input(keys);
    lemma_place(w, 0);
    assert forall|i: int| 0 <= i < v.segments.len() implies live(
        v.entities,
        #[trigger] v.segments[i],
    ) by {
        lemma_place(w, i);
    }
    assert forall|i: int| 1 <= i < v.segments.len() implies v.entities[#[trigger] v.segments[i]].unwrap().role is Segment by {
        lemma_place(w, i);
    }
    assert forall|id: int|
        live(v.entities, id) && !((#[trigger] v.entities[id]).unwrap().role is Food) implies v.tracks(
        id,
    ) by {
        if id != w.head_id() {
            assert(w.entities[id] == v.entities[id]);
            assert(w.tracks(id));
        }
    }
    assert forall|i: int| 0 <= i < w.segments.len() implies v.record(i).position == w.record(
        i,
    ).position by {
        lemma_place(w, i);
    }
}

/// A move shifts the body by one cell along the pending heading: the head
/// enters the next cell, each follower the cell of the segment ahead of it,
/// and the cell that the tail left is put on record. Nothing else changes but
/// the game-over signals, and the world stays valid.
pub proof fn lemma_after_movement(w: World)
    requires
        w.valid(),
        w.game_over == 0,
    ensures
        w.after_movement().valid(),
        w.after_movement().body() =~= seq![w.next_head()] + w.body().drop_last(),
        w.after_movement().head() == w.head().advanced(),
        w.after_movement().segments == w.segments,
        w.after_movement().entities.len() == w.entities.len(),
        forall|id: int|
            0 <= id < w.entities.len() && !w.tracks(id) ==> #[trigger] w.after_movement().entities[id]
                == w.entities[id],
        w.next_head().x == w.head_entity().position.x + w.head().direction.dx(),
        w.next_head().y == w.head_entity().position.y + w.head().direction.dy(),
{
    let v = w.after_movement();
    lemma_step_from_arena(w.head_entity().position, w.head().direction);
    assert forall|i: int| 0 <= i < w.segments.len() implies live(v.entities, w.segments[i])
        && v.record(i) == (if i == 0 {
        Entity {
            position: w.next_head(),
            role: Role::Head(w.head().advanced()),
            ..w.head_entity()
        }
    } else {
        w.record(i).moved_to(w.body()[i - 1])
    }) by {
        lemma_place(w, i);
    }
    assert(v.record(0).role is Head);
    assert forall|i: int| 1 <= i < v.segments.len() implies v.entities[#[trigger] v.segments[i]].unwrap().role is Segment by {
        assert(v.record(i) == w.record(i).moved_to(w.body()[i - 1]));
    }
    assert forall|id: int|
        live(v.entities, id) && !((#[trigger] v.entities[id]).unwrap().role is Food) implies v.tracks(
        id,
    ) by {
        if !w.tracks(id) {
            assert(v.entities[id] == w.entities[id]);
        }
    }
    assert(v.body() =~= seq![w.next_head()] + w.body().drop_last());
}

/// The eating phase destroys the food in the head's cell and nothing else:
/// no such food is left, every other entity and the snake stay as they are,
/// and the world stays valid.
pub proof fn lemma_after_eating(w: World)
    requires
        w.valid(),
    ensures
        w.after_eating().valid(),
        w.after_eating().segments == w.segments,
        w.after_eating().body() =~= w.body(),
        w.after_eating().head() == w.head(),
        w.after_eating().growth >= w.growth,
        w.after_eating().entities.len() == w.entities.len(),
        forall|id: int|
            0 <= id < w.entities.len() ==> !food_at(w.head_entity().position)(
                #[trigger] w.after_eating().entities[id],
            ),
        forall|id: int|
            0 <= id < w.entities.len() && !food_at(w.head_entity().position)(w.entities[id])
                ==> #[trigger] w.after_eating().entities[id] == w.entities[id],
{
    let v = w.after_eating();
    assert forall|i: int| 0 <= i < w.segments.len() implies v.entities[w.segments[i]]
        == w.entities[w.segments[i]] && live(v.entities, w.segments[i]) by {
        lemma_place(w, i);
        if i >= 1 {
            assert(w.entities[w.segments[i]].unwrap().role is Segment);
        }
    }
    assert(v.record(0) == w.record(0));
    assert forall|i: int| 1 <= i < v.segments.len() implies v.entities[#[trigger] v.segments[i]].unwrap().role is Segment by {
        assert(v.entities[w.segments[i]] == w.entities[w.segments[i]]);
    }
    assert forall|id: int|
        live(v.entities, id) && !((#[trigger] v.entities[id]).unwrap().role is Food) implies v.tracks(
        id,
    ) by {
        assert(v.entities[id] == w.entities[id]);
        assert(w.tracks(id));
    }
    assert forall|i: int| 0 <= i < w.segments.len() implies v.record(i).position == w.record(
        i,
    ).position by {
        assert(v.entities[w.segments[i]] == w.entities[w.segments[i]]);
    }
}

/// Appending a segment lengthens the body by the cell `tail` and keeps the
/// world valid.
pub proof fn lemma_grown(w: World, tail: Position)
    requires
        w.valid(),
        tail.in_arena(),
    ensures
        w.grown(tail).valid(),
        w.grown(tail).body() =~= w.body().push(tail),
        w.grown(tail).segments.len() == w.segments.len() + 1,
        w.grown(tail).entities.len() == w.entities.len() + 1,
        w.grown(tail).head() == w.head(),
        w.grown(tail).last_tail == w.last_tail,
        w.grown(tail).growth == w.growth,
        w.grown(tail).game_over == w.game_over,
{
    let v = w.grown(tail);
    let id = fresh_id(w.entities);
    let n = w.segments.len() as int;
    assert(!live(w.entities, id));
    assert(lookup(v.entities, id) == Some(Entity::spec_segment(tail)));
    assert forall|i: int| 0 <= i < n implies v.segments[i] == w.segments[i] && w.segments[i] != id
        && v.entities[w.segments[i]] == w.entities[w.segments[i]] && live(
        v.entities,
        w.segments[i],
    ) by {
        lemma_place(w, i);
    }
    assert(v.segments[n] == id);
    assert(v.segments.no_duplicates());
    assert forall|i: int| 0 <= i < v.segments.len() implies live(
        v.entities,
        #[trigger] v.segments[i],
    ) by {
        if i < n {
            assert(v.segments[i] == w.segments[i]);
        }
    }
    assert(v.record(0) == w.record(0));
    assert forall|i: int| 1 <= i < v.segments.len() implies v.entities[#[trigger] v.segments[i]].unwrap().role is Segment by {
        if i < n {
            assert(v.segments[i] == w.segments[i]);
        }
    }
    assert forall|j: int|
        live(v.entities, j) && !((#[trigger] v.entities[j]).unwrap().role is Food) implies v.tracks(
        j,
    ) by {
        if j == id {
            assert(v.segments[n] == j);
        } else {
            assert(lookup(v.entities, j) == lookup(w.entities, j));
            assert(w.tracks(j));
            let i = w.place(j);
            assert(v.segments[i] == j);
        }
    }
    assert forall|i: int| 0 <= i < v.segments.len() implies v.body()[i] == w.body().push(tail)[i] by {
        if i < n {
            assert(v.segments[i] == w.segments[i]);
        }
    }
}

/// Appending `n` segments lengthens the snake by `n` and keeps the world
/// valid; each new segment stands at `tail`.
pub proof fn lemma_grown_by(w: World, n: nat, tail: Position)
    requires
        w.valid(),
        tail.in_arena(),
    ensures
        w.grown_by(n, tail).valid(),
        w.grown_by(n, tail).segments.len() == w.segments.len() + n,
        w.grown_by(n, tail).entities.len() == w.entities.len() + n,
        w.grown_by(n, tail).body() =~= w.body() + Seq::new(n, |i: int| tail),
        w.grown_by(n, tail).head() == w.head(),
        w.grown_by(n, tail).last_tail == w.last_tail,
        w.grown_by(n, tail).growth == w.growth,
        w.grown_by(n, tail).game_over == w.game_over,
    decreases n,
{
    if n > 0 {
        lemma_grown(w, tail);
        lemma_grown_by(w.grown(tail), (n - 1) as nat, tail);
        assert(w.grown_by(n, tail).body() =~= w.body() + Seq::new(n, |i: int| tail));
    } else {
        assert(w.body() =~= w.body() + Seq::new(0, |i: int| tail));
    }
}

/// The growth phase keeps the world valid and lengthens the snake by the
/// number of signals it consumed.
pub proof fn lemma_after_growth(w: World)
    requires
        w.valid(),
        w.growth > 0 ==> w.last_tail is Some,
    ensures
        w.after_growth().valid(),
        w.after_growth().growth == 0,
        w.after_growth().segments.len() == w.segments.len() + w.growth,
        w.after_growth().entities.len() == w.entities.len() + w.growth,
        w.after_growth().head() == w.head(),
        w.after_growth().game_over == w.game_over,
        w.after_growth().last_tail == w.last_tail,
        w.growth == 0 ==> w.after_growth() == w,
        w.last_tail matches Some(tail) ==> w.after_growth().body() =~= w.body() + Seq::new(
            w.growth,
            |i: int| tail,
        ),
{
    match w.last_tail {
        Some(tail) => {
            lemma_grown_by(w, w.growth, tail);
            let g = w.grown_by(w.growth, tail);
            let v = w.after_growth();
            assert(v.entities == g.entities && v.segments == g.segments);
            assert(v.record(0) == g.record(0));
            assert(v.body() =~= g.body());
        },
        None => {},
    }
}

/// The game-over phase leaves a valid world without a waiting game-over
/// signal. Where a signal waited, every entity that lived before is gone,
/// food included, and the snake is the starting one under two fresh
/// identifiers: no identifier of the old chain is live or part of the new
/// chain.
pub proof fn lemma_after_game_over(w: World)
    requires
        w.valid(),
    ensures
        w.after_game_over().valid(),
        w.after_game_over().game_over == 0,
        w.after_game_over().growth == w.growth,
        w.after_game_over().last_tail == w.last_tail,
        w.game_over == 0 ==> w.after_game_over() == w,
        w.game_over > 0 ==> {
            &&& w.after_game_over().segments =~= seq![
                fresh_id(w.entities),
                fresh_id(w.entities) + 1,
            ]
            &&& w.after_game_over().entities.len() == w.entities.len() + 2
            &&& w.after_game_over().body() =~= seq![start_head(), start_follower()]
            &&& w.after_game_over().head() == start_heading()
            &&& forall|id: int|
                0 <= id < w.entities.len() ==> !live(w.after_game_over().entities, id)
            &&& forall|i: int|
                0 <= i < w.segments.len() ==> !w.after_game_over().segments.contains(
                    #[trigger] w.segments[i],
                ) && !live(w.after_game_over().entities, w.segments[i])
        },
{
    if w.game_over > 0 {
        let v = w.after_game_over();
        let n = w.entities.len() as int;
        assert(v.segments =~= seq![n, n + 1]);
        assert(v.segments[0] == n && v.segments[1] == n + 1);
        assert(v.record(0) == Entity::spec_head(start_head(), start_heading()));
        assert(v.record(1) == Entity::spec_segment(start_follower()));
        assert(v.body() =~= seq![start_head(), start_follower()]);
        assert forall|id: int|
            live(v.entities, id) && !((#[trigger] v.entities[id]).unwrap().role is Food) implies v.tracks(
            id,
        ) by {
            assert(id == n || id == n + 1);
            assert(v.segments[id - n] == id);
        }
        assert forall|i: int| 0 <= i < w.segments.len() implies !v.segments.contains(
            #[trigger] w.segments[i],
        ) && !live(v.entities, w.segments[i]) by {
            lemma_place(w, i);
        }
    }
}

/// Spawning food leaves the snake as it is and keeps the world valid.
pub proof fn lemma_after_food(w: World, cell: Position)
    requires
        w.valid(),
        cell.in_arena(),
    ensures
        w.after_food(cell).valid(),
        w.after_food(cell).segments == w.segments,
        w.after_food(cell).body() =~= w.body(),
        w.after_food(cell).head() == w.head(),
        lookup(w.after_food(cell).entities, fresh_id(w.entities)) == Some(Entity::spec_food(cell)),
{
    let v = w.after_food(cell);
    let id = fresh_id(w.entities);
    assert forall|i: int| 0 <= i < w.segments.len() implies w.segments[i] != id
        && v.entities[w.segments[i]] == w.entities[w.segments[i]] && live(
        v.entities,
        w.segments[i],
    ) by {
        lemma_place(w, i);
    }
    assert(v.record(0) == w.record(0));
    assert forall|i: int| 1 <= i < v.segments.len() implies v.entities[#[trigger] v.segments[i]].unwrap().role is Segment by {
        assert(v.entities[w.segments[i]] == w.entities[w.segments[i]]);
    }
    assert forall|j: int|
        live(v.entities, j) && !((#[trigger] v.entities[j]).unwrap().role is Food) implies v.tracks(
        j,
    ) by {
        if j != id {
            assert(lookup(v.entities, j) == lookup(w.entities, j));
            assert(w.tracks(j));
        }
    }
    assert forall|i: int| 0 <= i < w.segments.len() implies v.record(i).position == w.record(
        i,
    ).position by {
        assert(v.entities[w.segments[i]] == w.entities[w.segments[i]]);
    }
}

/// A movement tick takes a valid world without a waiting game-over signal to
/// another such world, and consumes every signal.
///
/// Where no game-over signal fires, the snake keeps its segments and gets one
/// more for each growth signal. Where one fires, the round restarts: the
/// snake is the starting one, and no identifier of the old chain is live or
/// part of the new chain.
pub proof fn lemma_after_tick(w: World)
    requires
        w.valid(),
        w.game_over == 0,
    ensures
        w.after_tick().valid(),
        w.after_tick().game_over == 0,
        w.after_tick().growth == 0,
        w.after_tick().last_tail == Some(w.body().last()),
        w.after_tick().entities.len() >= w.entities.len(),
        !w.game_over_fires() ==> w.after_tick().segments.len() == w.segments.len()
            + w.growth_fired(),
        !w.game_over_fires() && !w.growth_fires() ==> w.after_tick().segments == w.segments,
        w.game_over_fires() ==> {
            &&& w.after_tick().segments.len() == 2
            &&& w.after_tick().body() =~= seq![start_head(), start_follower()]
            &&& w.after_tick().head() == start_heading()
            &&& forall|i: int|
                0 <= i < w.segments.len() ==> !w.after_tick().segments.contains(
                    #[trigger] w.segments[i],
                ) && !live(w.after_tick().entities, w.segments[i])
        },
{
    lemma_after_movement(w);
    let moved = w.after_movement();
    lemma_after_eating(moved);
    let fed = moved.after_eating();
    lemma_after_growth(fed);
    let grown = fed.after_growth();
    lemma_after_game_over(grown);
    if w.game_over_fires() {
        let v = w.after_tick();
        assert forall|i: int| 0 <= i < w.segments.len() implies !v.segments.contains(
            #[trigger] w.segments[i],
        ) && !live(v.entities, w.segments[i]) by {
            lemma_place(w, i);
        }
    }
}

} // verus!
