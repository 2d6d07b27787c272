//! Laws of the game, proved of the model that the systems are verified against.

use vstd::prelude::*;
use crate::geometry::{Arena, Direction, Position};
use crate::input::{resolve_heading_spec, PressedKeys};
use crate::model::WorldView;
use crate::store::{EntityId, Kind};

verus! {

/// Wrap-around: a step off an edge of the grid comes back in at the opposite edge, in the
/// same row or column.
pub proof fn lemma_wrap_around(arena: Arena, p: Position)
    requires
        arena.wf(),
        arena.contains(p),
    ensures
        p.x == 0 ==> arena.advance_spec(p, Direction::Left) == (Position {
            x: (arena.width - 1) as i32,
            y: p.y,
        }),
        p.x == arena.width - 1 ==> arena.advance_spec(p, Direction::Right) == (Position {
            x: 0,
            y: p.y,
        }),
        p.y == arena.height - 1 ==> arena.advance_spec(p, Direction::Up) == (Position {
            x: p.x,
            y: 0,
        }),
        p.y == 0 ==> arena.advance_spec(p, Direction::Down) == (Position {
            x: p.x,
            y: (arena.height - 1) as i32,
        }),
{
}

/// Wrap-around of the snake: a head on an edge of the grid that heads off it lies on the
/// opposite edge after the movement, in the same row or column.
pub proof fn lemma_head_wraps(w: WorldView)
    requires
        w.wf(),
    ensures
        w.heading == Direction::Left && w.head().x == 0 ==> w.moved().head() == (Position {
            x: (w.config.arena.width - 1) as i32,
            y: w.head().y,
        }),
        w.heading == Direction::Right && w.head().x == w.config.arena.width - 1
            ==> w.moved().head() == (Position { x: 0, y: w.head().y }),
        w.heading == Direction::Up && w.head().y == w.config.arena.height - 1
            ==> w.moved().head() == (Position { x: w.head().x, y: 0 }),
        w.heading == Direction::Down && w.head().y == 0 ==> w.moved().head() == (Position {
            x: w.head().x,
            y: (w.config.arena.height - 1) as i32,
        }),
{
    w.lemma_moved();
    assert(w.entities.contains_key(w.segments[0]));
    lemma_wrap_around(w.config.arena, w.head());
}

/// Away from the edge that it heads for, a step changes one coordinate by one and leaves
/// the other alone; wherever it starts on the grid, it ends on the grid.
pub proof fn lemma_step(arena: Arena, p: Position, d: Direction)
    requires
        arena.wf(),
        arena.contains(p),
    ensures
        arena.contains(arena.advance_spec(p, d)),
        arena.contains(Position { x: (p.x + d.dx()) as i32, y: (p.y + d.dy()) as i32 })
            ==> arena.advance_spec(p, d) == (Position {
            x: (p.x + d.dx()) as i32,
            y: (p.y + d.dy()) as i32,
        }),
{
}

/// No reversal: asking for the heading opposite to the current one, with no other key held
/// down, leaves the heading as it is.
pub proof fn lemma_no_reversal(d: Direction)
    ensures
        resolve_heading_spec(d, PressedKeys::only(d.opposite_spec())) == d,
{
}

/// Whatever keys are held down, the snake never turns right around; with no key held down
/// it keeps its heading.
pub proof fn lemma_never_turns_around(d: Direction, keys: PressedKeys)
    ensures
        resolve_heading_spec(d, keys) != d.opposite_spec(),
        resolve_heading_spec(d, PressedKeys::none()) == d,
{
}

/// Reading the keys changes nothing of the world but the heading, keeps the world
/// well-formed, and never turns the snake right around.
pub proof fn lemma_steering(w: WorldView, keys: PressedKeys)
    requires
        w.wf(),
    ensures
        w.steered(keys).wf(),
        w.steered(keys) == (WorldView { heading: w.steered(keys).heading, ..w }),
        w.steered(keys).heading != w.heading.opposite_spec(),
        w.steered(PressedKeys::only(w.heading.opposite_spec())) == w,
        w.steered(PressedKeys::none()) == w,
{
}

/// Chain-follow: after a movement the head lies one wrapped step ahead of where it was, and
/// every other segment lies where the segment before it was.
pub proof fn lemma_chain_follow(w: WorldView)
    requires
        w.wf(),
    ensures
        w.moved().snake().len() == w.snake().len(),
        w.moved().snake()[0] == w.config.arena.advance_spec(w.snake()[0], w.heading),
        forall|i: int| 1 <= i < w.snake().len() ==> w.moved().snake()[i] == w.snake()[i - 1],
        w.moved().last_tail == Some(w.snake().last()),
{
    w.lemma_moved();
}

/// Growth, once per tick: where the growth signal is raised, however many pieces of food
/// raised it, handling it makes the snake longer by exactly one segment, which lies in the
/// cell that the tail left; where it is not raised, the snake stays as it is.
pub proof fn lemma_growth_appends_one(w: WorldView)
    requires
        w.wf(),
        w.growth ==> w.last_tail is Some && w.can_spawn(1),
    ensures
        w.growth ==> w.grown().snake() == w.snake().push(w.last_tail.unwrap()),
        !w.growth ==> w.grown().snake() == w.snake(),
        !w.grown().growth,
{
    w.lemma_grown();
}

/// Within one tick, a snake that finds food in the cell that its head moved to is longer by
/// exactly one segment after growing, and the new segment lies where the tail was before
/// the movement; a snake that finds none, and had no growth signal left over, keeps its
/// length.
pub proof fn lemma_eating_grows_by_one(w: WorldView)
    requires
        w.wf(),
        w.can_spawn(1),
    ensures
        w.moved().eats() || w.growth ==> w.moved().fed().grown().snake() == w.moved().snake().push(
            w.snake().last(),
        ),
        !w.moved().eats() && !w.growth ==> w.moved().fed().grown().snake() == w.moved().snake(),
{
    w.lemma_moved();
    w.moved().lemma_fed();
    w.moved().fed().lemma_grown();
}

/// Self-collision restarts the game: where the head moves onto a cell that the snake held
/// before the movement, the movement raises the game-over signal, and at the end of the
/// tick nothing is alive but a new snake of two segments, which lies and heads as the
/// set-up says.
pub proof fn lemma_collision_restarts(w: WorldView)
    requires
        w.wf(),
        w.can_spawn(3),
        w.collides(),
    ensures
        w.moved().game_over,
        w.ticked().snake() == seq![w.config.spawn, w.config.behind()],
        w.ticked().heading == w.config.heading,
        w.ticked().segments.len() == 2,
        forall|id: EntityId|
            w.ticked().entities.contains_key(id) <==> w.ticked().segments.contains(id),
        forall|id: EntityId| w.ticked().entities.contains_key(id) ==> !w.entities.contains_key(id),
        !w.ticked().game_over,
{
    w.lemma_moved();
    w.moved().lemma_fed();
    w.moved().fed().lemma_grown();
    let before = w.moved().fed().grown();
    before.lemma_fresh();
    let after = before.fresh();
    assert(after.segments[0] == before.next_id);
    assert(after.segments[1] == before.next_id + 1);
}

/// There is exactly one head: the first segment of the snake, and no other entity.
pub proof fn lemma_one_head(w: WorldView)
    requires
        w.wf(),
    ensures
        forall|id: EntityId|
            w.entities.contains_key(id) && w.entities[id].kind == Kind::Head <==> id
                == w.segments[0],
{
    assert forall|id: EntityId|
        w.entities.contains_key(id) && w.entities[id].kind == Kind::Head implies id
        == w.segments[0] by {
        let i = w.segments.index_of(id);
        assert(w.segments[i] == id);
    }
    assert(w.entities.contains_key(w.segments[0]));
}

/// The snake and the food lie on the grid, and so does the cell that the tail left.
pub proof fn lemma_on_the_grid(w: WorldView)
    requires
        w.wf(),
    ensures
        forall|i: int|
            0 <= i < w.snake().len() ==> w.config.arena.contains(#[trigger] w.snake()[i]),
        forall|id: EntityId|
            w.entities.contains_key(id) ==> w.config.arena.contains(
                #[trigger] w.entities[id].position,
            ),
        w.last_tail matches Some(cell) ==> w.config.arena.contains(cell),
        w.config.arena.contains(w.next_head()),
{
    assert forall|i: int| 0 <= i < w.snake().len() implies w.config.arena.contains(
        #[trigger] w.snake()[i],
    ) by {
        assert(w.entities.contains_key(w.segments[i]));
    }
}

/// Without a collision, and with no game-over signal left over, a tick does not restart
/// the game: the snake moves on, and grows where it ate.
pub proof fn lemma_no_collision_goes_on(w: WorldView)
    requires
        w.wf(),
        w.can_spawn(3),
        !w.collides(),
        !w.game_over,
    ensures
        w.ticked() == w.moved().fed().grown(),
        w.ticked().heading == w.heading,
        w.segments.is_prefix_of(w.ticked().segments),
        w.ticked().snake().len() == w.snake().len() + (if w.moved().eats() || w.growth {
            1int
        } else {
            0int
        }),
{
    lemma_eating_grows_by_one(w);
    w.lemma_moved();
    assert(w.segments.is_prefix_of(w.ticked().segments)) by {
        let after = w.ticked().segments;
        assert(w.segments.len() <= after.len());
        assert forall|i: int| 0 <= i < w.segments.len() implies w.segments[i] == after[i] by {}
    }
}

} // verus!
