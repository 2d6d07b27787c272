//! The mathematical model of the world, and what each system of the game does to it.
//!
//! A `WorldView` is the whole state of a game as plain mathematics. Each system is a
//! function from one `WorldView` to the next, and the contracts of the executable systems
//! say that they compute these functions.

use vstd::prelude::*;
use crate::config::Config;
use crate::geometry::{Direction, Position};
use crate::input::{resolve_heading_spec, PressedKeys};
use crate::store::{Entity, EntityId, Kind};

verus! {

/// The state of a game.
pub struct WorldView {
    /// The set-up that the game was started with.
    pub config: Config,
    /// The entities that are alive, by identifier.
    pub entities: Map<EntityId, Entity>,
    /// The identifier that the next entity to be spawned gets.
    pub next_id: EntityId,
    /// The snake, as the identifiers of its segments from head to tail.
    pub segments: Seq<EntityId>,
    /// The heading of the snake's head.
    pub heading: Direction,
    /// The cell that the tail left at the last movement, if there was one.
    pub last_tail: Option<Position>,
    /// Whether a growth signal was raised and not yet handled.
    pub growth: bool,
    /// Whether a game-over signal was raised and not yet handled.
    pub game_over: bool,
}

/// Those of `entities` that are food and lie in cell `p`.
pub open spec fn food_in(entities: Map<EntityId, Entity>, p: Position) -> Set<EntityId> {
    Set::new(
        |id: EntityId|
            entities.contains_key(id) && entities[id] == (Entity { kind: Kind::Food, position: p }),
    )
}

impl WorldView {
    /// The world in which nothing is alive and no snake was spawned yet.
    pub open spec fn blank(config: Config) -> WorldView {
        WorldView {
            config,
            entities: Map::empty(),
            next_id: 0,
            segments: Seq::empty(),
            heading: config.heading,
            last_tail: None,
            growth: false,
            game_over: false,
        }
    }

    /// The world at the start of a game: the new snake and nothing else.
    pub open spec fn initial(config: Config) -> WorldView {
        Self::blank(config).fresh()
    }

    /// The world in which the snake lies in `cells`, from head to tail, and nothing else is
    /// alive; the segments have the identifiers from zero on.
    pub open spec fn laid_out(
        config: Config,
        heading: Direction,
        cells: Seq<Position>,
    ) -> WorldView {
        WorldView {
            config,
            entities: Map::new(
                |id: EntityId| id < cells.len(),
                |id: EntityId|
                    Entity {
                        kind: if id == 0 {
                            Kind::Head
                        } else {
                            Kind::Body
                        },
                        position: cells[id as int],
                    },
            ),
            next_id: cells.len() as EntityId,
            segments: Seq::new(cells.len(), |i: int| i as EntityId),
            heading,
            last_tail: None,
            growth: false,
            game_over: false,
        }
    }

    /// What holds of every state of a game: the snake has a head and at least one more
    /// segment, its segments are alive and no two of them are the same entity, every
    /// entity that is no food belongs to the snake, and everything lies on the grid.
    pub open spec fn wf(self) -> bool {
        &&& self.config.wf()
        &&& self.entities.dom().finite()
        &&& forall|id: EntityId| #[trigger] self.entities.contains_key(id) ==> id < self.next_id
        &&& self.segments.len() >= 2
        &&& self.segments.no_duplicates()
        &&& forall|i: int|
            0 <= i < self.segments.len() ==> self.entities.contains_key(#[trigger] self.segments[i])
        &&& self.entities[self.segments[0]].kind == Kind::Head
        &&& forall|i: int|
            1 <= i < self.segments.len() ==> self.entities[#[trigger] self.segments[i]].kind
                == Kind::Body
        &&& forall|id: EntityId|
            #[trigger] self.entities.contains_key(id) && self.entities[id].kind != Kind::Food
                ==> self.segments.contains(id)
        &&& forall|id: EntityId|
            #[trigger] self.entities.contains_key(id) ==> self.config.arena.contains(
                self.entities[id].position,
            )
        &&& self.last_tail matches Some(p) ==> self.config.arena.contains(p)
    }

    /// Whether `n` more entities can be spawned before the identifiers run out.
    pub open spec fn can_spawn(self, n: nat) -> bool {
        self.next_id + n <= u64::MAX
    }

    /// The cells of the snake, from head to tail.
    pub open spec fn snake(self) -> Seq<Position> {
        Seq::new(self.segments.len(), |i: int| self.entities[self.segments[i]].position)
    }

    /// The cell of the snake's head.
    pub open spec fn head(self) -> Position {
        self.entities[self.segments[0]].position
    }

    /// The cell that the head moves to at the next movement.
    pub open spec fn next_head(self) -> Position {
        self.config.arena.advance_spec(self.head(), self.heading)
    }

    /// Whether the head runs into the snake at the next movement: the cell it moves to is
    /// one that the snake holds before the movement, the head's own and the tail's included.
    pub open spec fn collides(self) -> bool {
        self.snake().contains(self.next_head())
    }

    /// The cell that segment `i` of the snake holds after the next movement: the head moves
    /// on, and every other segment takes the place of the one before it.
    pub open spec fn shifted(self, i: int) -> Position {
        if i == 0 {
            self.next_head()
        } else {
            self.snake()[i - 1]
        }
    }

    /// The world after the keys held down were read.
    pub open spec fn steered(self, keys: PressedKeys) -> WorldView {
        WorldView { heading: resolve_heading_spec(self.heading, keys), ..self }
    }

    /// The world after one movement of the snake.
    pub open spec fn moved(self) -> WorldView {
        WorldView {
            entities: Map::new(
                |id: EntityId| self.entities.contains_key(id),
                |id: EntityId|
                    if self.segments.contains(id) {
                        Entity {
                            kind: self.entities[id].kind,
                            position: self.shifted(self.segments.index_of(id)),
                        }
                    } else {
                        self.entities[id]
                    },
            ),
            last_tail: Some(self.snake().last()),
            game_over: self.game_over || self.collides(),
            ..self
        }
    }

    /// The food that lies in cell `p`.
    pub open spec fn food_at(self, p: Position) -> Set<EntityId> {
        food_in(self.entities, p)
    }

    /// Whether there is food in the cell of the head.
    pub open spec fn eats(self) -> bool {
        exists|id: EntityId| self.food_at(self.head()).contains(id)
    }

    /// The world after the snake ate what lies in the cell of its head.
    pub open spec fn fed(self) -> WorldView {
        WorldView {
            entities: self.entities.remove_keys(self.food_at(self.head())),
            growth: self.growth || self.eats(),
            ..self
        }
    }

    /// The world after the growth signal was handled: where it was raised, one new segment
    /// lies in the cell that the tail left, at the end of the snake.
    pub open spec fn grown(self) -> WorldView {
        if self.growth {
            WorldView {
                entities: self.entities.insert(
                    self.next_id,
                    Entity { kind: Kind::Body, position: self.last_tail.unwrap() },
                ),
                next_id: (self.next_id + 1) as EntityId,
                segments: self.segments.push(self.next_id),
                growth: false,
                ..self
            }
        } else {
            self
        }
    }

    /// The world after a new game was begun: nothing is alive but a new snake of two
    /// segments, which starts where and as the set-up says.
    pub open spec fn fresh(self) -> WorldView {
        let head = self.next_id;
        let body = (self.next_id + 1) as EntityId;
        WorldView {
            entities: Map::<EntityId, Entity>::empty().insert(
                head,
                Entity { kind: Kind::Head, position: self.config.spawn },
            ).insert(body, Entity { kind: Kind::Body, position: self.config.behind() }),
            next_id: (self.next_id + 2) as EntityId,
            segments: seq![head, body],
            heading: self.config.heading,
            game_over: false,
            ..self
        }
    }

    /// The world after the game-over signal was handled: where it was raised, a new game
    /// was begun.
    pub open spec fn restarted(self) -> WorldView {
        if self.game_over {
            self.fresh()
        } else {
            self
        }
    }

    /// The world after one tick: the snake moves, eats, grows, and the game begins anew
    /// where the snake ran into itself.
    pub open spec fn ticked(self) -> WorldView {
        self.moved().fed().grown().restarted()
    }

    /// The world after food was put in cell `p`.
    pub open spec fn with_food(self, p: Position) -> WorldView {
        WorldView {
            entities: self.entities.insert(self.next_id, Entity { kind: Kind::Food, position: p }),
            next_id: (self.next_id + 1) as EntityId,
            ..self
        }
    }

    /// A segment of a snake without repeats is found again at its own place.
    pub proof fn lemma_segment_index(self, i: int)
        requires
            self.segments.no_duplicates(),
            0 <= i < self.segments.len(),
        ensures
            self.segments.contains(self.segments[i]),
            self.segments.index_of(self.segments[i]) == i,
    {
        let j = self.segments.index_of(self.segments[i]);
        assert(self.segments[j] == self.segments[i]);
    }

    /// A movement keeps the world well-formed, and leaves every segment where `shifted`
    /// says; it raises the game-over signal exactly where the head runs into the snake.
    pub proof fn lemma_moved(self)
        requires
            self.wf(),
        ensures
            self.moved().wf(),
            self.moved().segments == self.segments,
            self.moved().snake() == Seq::new(self.segments.len(), |i: int| self.shifted(i)),
            self.moved().head() == self.next_head(),
            self.moved().last_tail == Some(self.snake().last()),
            self.moved().game_over == (self.game_over || self.collides()),
    {
        let next = self.moved();
        assert(next.entities.dom() =~= self.entities.dom());
        assert forall|i: int| 0 <= i < self.segments.len() implies #[trigger]
            next.entities[self.segments[i]] == (Entity {
            kind: self.entities[self.segments[i]].kind,
            position: self.shifted(i),
        }) by {
            self.lemma_segment_index(i);
        }
        assert forall|id: EntityId| #[trigger]
            next.entities.contains_key(id) implies self.config.arena.contains(
            next.entities[id].position,
        ) by {
            if self.segments.contains(id) {
                let i = self.segments.index_of(id);
                if i > 0 {
                    assert(self.entities.contains_key(self.segments[i - 1]));
                }
            }
        }
        assert(self.entities.contains_key(self.segments[self.segments.len() - 1]));
        assert(next.snake() =~= Seq::new(self.segments.len(), |i: int| self.shifted(i)));
    }

    /// Eating keeps the world well-formed and the snake where it is; what leaves is the
    /// food in the cell of the head, and nothing else.
    pub proof fn lemma_fed(self)
        requires
            self.wf(),
        ensures
            self.fed().wf(),
            self.fed().segments == self.segments,
            self.fed().snake() == self.snake(),
            self.fed().head() == self.head(),
            forall|id: EntityId|
                self.fed().entities.contains_key(id) <==> self.entities.contains_key(id) && !(
                self.entities[id].kind == Kind::Food && self.entities[id].position == self.head()),
            forall|id: EntityId|
                self.fed().entities.contains_key(id) ==> self.fed().entities[id]
                    == self.entities[id],
            self.fed().growth == (self.growth || self.eats()),
    {
        let next = self.fed();
        assert(next.entities.dom() =~= self.entities.dom().difference(self.food_at(self.head())));
        assert forall|i: int| 0 <= i < self.segments.len() implies next.entities.contains_key(
            #[trigger] self.segments[i],
        ) && next.entities[self.segments[i]] == self.entities[self.segments[i]] by {
            assert(self.entities.contains_key(self.segments[i]));
            if i >= 1 {
                assert(self.entities[self.segments[i]].kind == Kind::Body);
            }
        }
        assert(next.snake() =~= self.snake());
    }

    /// Handling the growth signal keeps the world well-formed. Where the signal was raised
    /// the snake is longer by exactly one segment, which lies in the cell that the tail
    /// left; where it was not, nothing changes.
    pub proof fn lemma_grown(self)
        requires
            self.wf(),
            self.growth ==> self.last_tail is Some && self.can_spawn(1),
        ensures
            self.grown().wf(),
            !self.grown().growth,
            self.growth ==> self.grown().snake() == self.snake().push(self.last_tail.unwrap()),
            self.growth ==> self.grown().head() == self.head(),
            !self.growth ==> self.grown() == self,
    {
        if self.growth {
            let next = self.grown();
            let n = self.segments.len() as int;
            assert forall|i: int| 0 <= i < n implies next.segments[i] == self.segments[i]
                && self.segments[i] != self.next_id by {
                assert(self.entities.contains_key(self.segments[i]));
            }
            assert(next.segments.no_duplicates());
            assert forall|id: EntityId| #[trigger]
                next.entities.contains_key(id) && next.entities[id].kind != Kind::Food
            implies next.segments.contains(id) by {
                if id == self.next_id {
                    assert(next.segments[n] == id);
                } else {
                    let i = self.segments.index_of(id);
                    assert(next.segments[i] == id);
                }
            }
            assert forall|i: int| 0 <= i < next.segments.len() implies next.entities.contains_key(
                #[trigger] next.segments[i],
            ) by {
                if i < n {
                    assert(self.entities.contains_key(self.segments[i]));
                }
            }
            assert forall|i: int| 1 <= i < next.segments.len() implies next.entities[#[trigger]
                next.segments[i]].kind == Kind::Body by {
                if i < n {
                    assert(self.entities[self.segments[i]].kind == Kind::Body);
                }
            }
            assert(next.snake() =~= self.snake().push(self.last_tail.unwrap()));
        }
    }

    /// A new game is well-formed, whatever the world was before.
    pub proof fn lemma_fresh(self)
        requires
            self.config.wf(),
            self.can_spawn(2),
            self.last_tail matches Some(p) ==> self.config.arena.contains(p),
        ensures
            self.fresh().wf(),
            self.fresh().snake() == seq![self.config.spawn, self.config.behind()],
            self.fresh().heading == self.config.heading,
    {
        let next = self.fresh();
        assert(next.segments[0] == self.next_id);
        assert(next.segments[1] == self.next_id + 1);
        assert(next.snake() =~= seq![self.config.spawn, self.config.behind()]);
    }

    /// Handling the game-over signal keeps the world well-formed.
    pub proof fn lemma_restarted(self)
        requires
            self.wf(),
            self.game_over ==> self.can_spawn(2),
        ensures
            self.restarted().wf(),
            !self.restarted().game_over,
    {
        if self.game_over {
            self.lemma_fresh();
        }
    }

    /// A tick keeps the world well-formed, leaves no signal behind, and spawns at most
    /// three entities: one segment where the snake grows, two where the game begins anew.
    pub proof fn lemma_ticked(self)
        requires
            self.wf(),
            self.can_spawn(3),
        ensures
            self.ticked().wf(),
            !self.ticked().growth,
            !self.ticked().game_over,
            self.moved().fed().growth ==> self.moved().fed().last_tail is Some,
            self.next_id <= self.ticked().next_id <= self.next_id + 3,
            self.ticked().config == self.config,
    {
        self.lemma_moved();
        self.moved().lemma_fed();
        self.moved().fed().lemma_grown();
        self.moved().fed().grown().lemma_restarted();
    }

    /// Putting food on the grid keeps the world well-formed and the snake where it is.
    pub proof fn lemma_with_food(self, p: Position)
        requires
            self.wf(),
            self.can_spawn(1),
            self.config.arena.contains(p),
        ensures
            self.with_food(p).wf(),
            self.with_food(p).snake() == self.snake(),
    {
        let next = self.with_food(p);
        assert forall|i: int| 0 <= i < self.segments.len() implies #[trigger] self.segments[i]
            != self.next_id by {
            assert(self.entities.contains_key(self.segments[i]));
        }
        assert(next.snake() =~= self.snake());
    }

    /// A snake of two or more segments laid out on the grid makes a well-formed world.
    pub proof fn lemma_laid_out(config: Config, heading: Direction, cells: Seq<Position>)
        requires
            config.wf(),
            2 <= cells.len() <= u64::MAX,
            forall|i: int| 0 <= i < cells.len() ==> config.arena.contains(#[trigger] cells[i]),
        ensures
            Self::laid_out(config, heading, cells).wf(),
            Self::laid_out(config, heading, cells).snake() == cells,
    {
        let w = Self::laid_out(config, heading, cells);
        let ids = Set::new(|id: EntityId| id < cells.len());
        assert(w.entities.dom() =~= ids);
        assert(ids.finite()) by {
            let all = Seq::new(cells.len(), |i: int| i as EntityId);
            vstd::seq_lib::seq_to_set_is_finite(all);
            assert forall|id: EntityId| ids.contains(id) implies all.to_set().contains(id) by {
                assert(all[id as int] == id);
            }
            assert(all.to_set() =~= ids);
        }
        assert forall|id: EntityId| #[trigger]
            w.entities.contains_key(id) && w.entities[id].kind != Kind::Food
        implies w.segments.contains(id) by {
            assert(w.segments[id as int] == id);
        }
        assert(w.snake() =~= cells);
    }
}

} // verus!
