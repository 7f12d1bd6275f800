//! Laws of the simulation: what holds of every world, proved over the model.

use vstd::prelude::*;
use crate::entity::live;
use crate::grid::{lemma_step_from_arena, Direction, Position, ARENA_HEIGHT, ARENA_WIDTH};
use crate::heading::{PressedKeys, SnakeHead};
use crate::world::{
    lemma_after_game_over, lemma_after_input, lemma_after_tick, start_follower, start_head,
    start_heading, World,
};

verus! {

/// A move never changes which segments the snake has, whatever signals it
/// sends.
pub proof fn lemma_movement_keeps_segments(w: World)
    ensures
        w.after_movement().segments == w.segments,
        w.after_movement().segments.to_set().len() == w.segments.to_set().len(),
{
}

/// A movement tick in which neither a growth signal nor a game-over signal
/// fires leaves the identifiers of the body as they were, and so their
/// number.
pub proof fn lemma_tick_keeps_segments(w: World)
    requires
        w.valid(),
        w.game_over == 0,
        !w.growth_fires(),
        !w.game_over_fires(),
    ensures
        w.after_tick().segments == w.segments,
        w.after_tick().segments.to_set().len() == w.segments.to_set().len(),
{
    lemma_after_tick(w);
}

/// The length of the snake after a movement tick: two if a game-over signal
/// fired, else the old length and one more for each growth signal.
pub proof fn lemma_tick_length(w: World)
    requires
        w.valid(),
        w.game_over == 0,
    ensures
        w.game_over_fires() ==> w.after_tick().segments.len() == 2,
        !w.game_over_fires() ==> w.after_tick().segments.len() == w.segments.len()
            + w.growth_fired(),
{
    lemma_after_tick(w);
}

/// After a game over was handled, the snake is the one of the startup: it has
/// two segments in the same cells, and its head heads up.
pub proof fn lemma_reset_matches_startup(w: World)
    requires
        w.valid(),
        w.game_over > 0,
    ensures
        w.after_game_over().segments.len() == World::startup().segments.len(),
        w.after_game_over().body() =~= World::startup().body(),
        w.after_game_over().head() == World::startup().head(),
        w.after_game_over().segments.len() == 2,
        w.after_game_over().body() =~= seq![start_head(), start_follower()],
        w.after_game_over().head() == start_heading(),
        w.after_game_over().game_over == 0,
{
    lemma_after_game_over(w);
    lemma_after_game_over(World { game_over: 1, ..World::empty() }.with_new_snake());
    crate::world::lemma_startup();
}

/// A reset retires every identifier: nothing that lived before it is live
/// after it, and no identifier of the old chain is part of the new chain.
pub proof fn lemma_reset_retires_identifiers(w: World)
    requires
        w.valid(),
        w.game_over > 0,
    ensures
        forall|id: int| 0 <= id < w.entities.len() ==> !live(w.after_game_over().entities, id),
        forall|i: int|
            0 <= i < w.segments.len() ==> !w.after_game_over().segments.contains(
                #[trigger] w.segments[i],
            ) && !live(w.after_game_over().entities, w.segments[i]),
        forall|id: int|
            live(w.after_game_over().entities, id) ==> w.after_game_over().segments.contains(id),
{
    lemma_after_game_over(w);
    let v = w.after_game_over();
    let n = w.entities.len() as int;
    assert forall|id: int| live(v.entities, id) implies v.segments.contains(id) by {
        assert(id == n || id == n + 1);
        assert(v.segments[id - n] == id);
    }
}

/// A movement tick in which a game-over signal fires ends in the snake of
/// the startup, under identifiers that the old chain did not hold.
pub proof fn lemma_fatal_tick_resets(w: World)
    requires
        w.valid(),
        w.game_over == 0,
        w.game_over_fires(),
    ensures
        w.after_tick().body() =~= seq![start_head(), start_follower()],
        w.after_tick().head() == start_heading(),
        forall|i: int|
            0 <= i < w.segments.len() ==> !w.after_tick().segments.contains(
                #[trigger] w.segments[i],
            ) && !live(w.after_tick().entities, w.segments[i]),
{
    lemma_after_tick(w);
}

/// No phase gives an identifier back: the identifiers that the table has
/// handed out stay taken through an input pass, a movement tick, a reset and
/// the spawn of food.
pub proof fn lemma_identifiers_stay_taken(w: World, keys: PressedKeys, cell: Position)
    requires
        w.valid(),
    ensures
        w.after_input(keys).entities.len() == w.entities.len(),
        w.after_game_over().entities.len() >= w.entities.len(),
        w.after_food(cell).entities.len() == w.entities.len() + 1,
        w.game_over == 0 ==> w.after_tick().entities.len() >= w.entities.len(),
{
    lemma_after_game_over(w);
    if w.game_over == 0 {
        lemma_after_tick(w);
    }
}

/// Game-over signals coalesce: two of them lead to the same world as one.
pub proof fn lemma_game_over_coalesces(w: World)
    ensures
        w.with_game_over_signal().with_game_over_signal().after_game_over()
            == w.with_game_over_signal().after_game_over(),
{
}

/// Two worlds that differ only in how many game-over signals wait, at least
/// one in each, are the same world after the game-over phase.
pub proof fn lemma_game_over_count_is_forgotten(w: World, n: nat, m: nat)
    requires
        n > 0,
        m > 0,
    ensures
        (World { game_over: n, ..w }).after_game_over() == (World {
            game_over: m,
            ..w
        }).after_game_over(),
{
}

/// A move that takes the head across one of the four walls sends a game-over
/// signal. A move that takes it to a cell of the arena, such as one of the
/// last column, sends none, unless a segment held that cell before the move.
pub proof fn lemma_walls_are_fatal(w: World)
    requires
        w.valid(),
        w.game_over == 0,
    ensures
        w.next_head().x == -1 || w.next_head().x == ARENA_WIDTH || w.next_head().y == -1
            || w.next_head().y == ARENA_HEIGHT ==> w.after_movement().game_over >= 1,
        w.hits_wall() <==> (w.next_head().x == -1 || w.next_head().x == ARENA_WIDTH
            || w.next_head().y == -1 || w.next_head().y == ARENA_HEIGHT),
        w.next_head().x == ARENA_WIDTH - 1 && 0 <= w.next_head().y < ARENA_HEIGHT
            ==> !w.hits_wall(),
        w.next_head().x == ARENA_WIDTH - 1 && 0 <= w.next_head().y < ARENA_HEIGHT
            && !w.hits_body() ==> w.after_movement().game_over == 0,
        w.after_movement().game_over > 0 <==> w.game_over_fires(),
{
    lemma_step_from_arena(w.head_entity().position, w.head().direction);
}

/// An input pass never makes the pending heading the reverse of the heading
/// last taken: a request for the reverse leaves the pending heading as it was,
/// any other request becomes the pending heading.
pub proof fn lemma_reversal_rejected(head: SnakeHead, keys: PressedKeys)
    ensures
        keys.spec_candidate() == Some(head.last_direction.spec_opposite()) ==> head.steered(keys)
            == head,
        keys.spec_candidate() matches Some(d) ==> (d != head.last_direction.spec_opposite()
            ==> head.steered(keys).direction == d),
        keys.spec_candidate() is None ==> head.steered(keys) == head,
        head.steered(keys).last_direction == head.last_direction,
        head.valid() ==> head.steered(keys).valid(),
{
}

/// After a move up, a request for down is dropped, and a request for left or
/// for right is taken.
pub proof fn lemma_after_up(head: SnakeHead, keys: PressedKeys)
    requires
        head.last_direction == Direction::Up,
    ensures
        keys.spec_candidate() == Some(Direction::Down) ==> head.steered(keys).direction
            == head.direction,
        keys.spec_candidate() == Some(Direction::Left) ==> head.steered(keys).direction
            == Direction::Left,
        keys.spec_candidate() == Some(Direction::Right) ==> head.steered(keys).direction
            == Direction::Right,
{
}

/// In a valid world, a request for the reverse of the heading last taken
/// changes nothing, and the next move continues along the pending heading.
pub proof fn lemma_reversal_keeps_course(w: World, keys: PressedKeys)
    requires
        w.valid(),
        keys.spec_candidate() == Some(w.head().last_direction.spec_opposite()),
    ensures
        w.after_input(keys).head() == w.head(),
        w.after_input(keys).next_head() == w.next_head(),
{
    lemma_after_input(w, keys);
    let v = w.after_input(keys);
    assert(v.body() =~= w.body());
    assert(v.body()[0] == w.body()[0]);
}

} // verus!
