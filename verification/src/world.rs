//! The world of a game and the systems that advance it.
//!
//! Each system does to the world what the function of the same purpose does to its model;
//! `World::tick` runs the systems of one movement tick in their order.

use vstd::prelude::*;
use crate::config::Config;
use crate::geometry::{Direction, Position};
use crate::input::{resolve_heading, PressedKeys};
use crate::model::{food_in, WorldView};
use crate::random::random_below;
use crate::store::{Entity, EntityId, EntityStore, Kind, Tag};

verus! {

/// Spawns one body segment of the snake in cell `position` and returns its identifier.
pub fn spawn_segment(store: &mut EntityStore, position: Position) -> (id: EntityId)
    requires
        old(store).wf(),
        old(store).can_spawn(1),
    ensures
        final(store).wf(),
        id == old(store).next_id(),
        !old(store)@.contains_key(id),
        final(store).next_id() == id + 1,
        final(store)@ == old(store)@.insert(id, Entity { kind: Kind::Body, position }),
{
    store.spawn(Kind::Body, position)
}

/// Spawns a new snake of two segments, the head where the set-up says and one body segment
/// behind it, and returns the two identifiers from head to tail.
pub fn spawn_snake(store: &mut EntityStore, config: &Config) -> (segments: Vec<EntityId>)
    requires
        old(store).wf(),
        old(store).can_spawn(2),
        config.wf(),
    ensures
        final(store).wf(),
        final(store).next_id() == old(store).next_id() + 2,
        segments@ == seq![old(store).next_id(), (old(store).next_id() + 1) as EntityId],
        final(store)@ == old(store)@.insert(
            old(store).next_id(),
            Entity { kind: Kind::Head, position: config.spawn },
        ).insert(
            (old(store).next_id() + 1) as EntityId,
            Entity { kind: Kind::Body, position: config.behind() },
        ),
{
    let head = store.spawn(Kind::Head, config.spawn);
    let behind = config.arena.advance(config.spawn, config.heading.opposite());
    let body = spawn_segment(store, behind);
    let mut segments: Vec<EntityId> = Vec::new();
    segments.push(head);
    segments.push(body);
    assert(segments@ =~= seq![head, body]);
    segments
}

/// Returns the cells of the entities `ids`, in their order.
fn snapshot(store: &EntityStore, ids: &Vec<EntityId>) -> (cells: Vec<Position>)
    requires
        store.wf(),
        forall|i: int| 0 <= i < ids.len() ==> store@.contains_key(#[trigger] ids[i]),
    ensures
        cells@ == Seq::new(ids.len() as nat, |i: int| store@[ids[i]].position),
{
    let mut cells: Vec<Position> = Vec::new();
    let mut i: usize = 0;
    while i < ids.len()
        invariant
            store.wf(),
            i <= ids.len(),
            forall|j: int| 0 <= j < ids.len() ==> store@.contains_key(#[trigger] ids[j]),
            cells.len() == i,
            forall|j: int| 0 <= j < i ==> cells[j] == store@[ids[j]].position,
        decreases ids.len() - i,
    {
        assert(store@.contains_key(ids[i as int]));
        let cell = store.get_position(ids[i]).unwrap();
        cells.push(cell);
        i += 1;
    }
    assert(cells@ =~= Seq::new(ids.len() as nat, |i: int| store@[ids[i]].position));
    cells
}

/// Tells whether `cell` is among `cells`.
fn occupied(cells: &Vec<Position>, cell: Position) -> (r: bool)
    ensures
        r == cells@.contains(cell),
{
    let mut i: usize = 0;
    while i < cells.len()
        invariant
            i <= cells.len(),
            forall|j: int| 0 <= j < i ==> cells[j] != cell,
        decreases cells.len() - i,
    {
        if cells[i] == cell {
            return true;
        }
        i += 1;
    }
    false
}

/// The cell that the entity at place `i` of a chain moves to, where `head` is the new cell
/// of the first and `prev` holds the cells of all before the move.
spec fn follow(prev: Seq<Position>, head: Position, i: int) -> Position {
    if i == 0 {
        head
    } else {
        prev[i - 1]
    }
}

/// Moves the first of `ids` to `head` and each other to the cell in `prev` of the one
/// before it.
fn shift(store: &mut EntityStore, ids: &Vec<EntityId>, prev: &Vec<Position>, head: Position)
    requires
        old(store).wf(),
        ids@.no_duplicates(),
        prev.len() == ids.len(),
        forall|i: int| 0 <= i < ids.len() ==> old(store)@.contains_key(#[trigger] ids[i]),
    ensures
        final(store).wf(),
        final(store).next_id() == old(store).next_id(),
        final(store)@.dom() == old(store)@.dom(),
        forall|i: int|
            0 <= i < ids.len() ==> final(store)@[#[trigger] ids[i]] == (Entity {
                kind: old(store)@[ids[i]].kind,
                position: follow(prev@, head, i),
            }),
        forall|id: EntityId|
            old(store)@.contains_key(id) && !ids@.contains(id) ==> #[trigger] final(store)@[id]
                == old(store)@[id],
{
    let ghost pre = store@;
    let mut i: usize = 0;
    while i < ids.len()
        invariant
            store.wf(),
            store.next_id() == old(store).next_id(),
            pre == old(store)@,
            ids@.no_duplicates(),
            prev.len() == ids.len(),
            i <= ids.len(),
            store@.dom() == pre.dom(),
            forall|j: int| 0 <= j < ids.len() ==> pre.contains_key(#[trigger] ids[j]),
            forall|j: int|
                0 <= j < i ==> store@[#[trigger] ids[j]] == (Entity {
                    kind: pre[ids[j]].kind,
                    position: follow(prev@, head, j),
                }),
            forall|j: int| i <= j < ids.len() ==> store@[#[trigger] ids[j]] == pre[ids[j]],
            forall|id: EntityId|
                pre.contains_key(id) && !ids@.contains(id) ==> #[trigger] store@[id] == pre[id],
        decreases ids.len() - i,
    {
        let cell = if i == 0 {
            head
        } else {
            prev[i - 1]
        };
        let ghost before = store@;
        assert(pre.contains_key(ids[i as int]));
        store.set_position(ids[i], cell);
        proof {
            assert(store@.dom() =~= pre.dom());
            assert forall|j: int| 0 <= j < ids.len() && j != i implies store@[#[trigger] ids[j]]
                == before[ids[j]] by {
                assert(ids[j] != ids[i as int]);
            }
        }
        i += 1;
    }
}

/// Whether `id` is one of the first `upto` of `ids`.
spec fn among(ids: Seq<EntityId>, upto: int, id: EntityId) -> bool {
    exists|j: int| 0 <= j < upto && #[trigger] ids[j] == id
}

/// Despawns the food that lies in `cell` and returns how many pieces that were; `foods`
/// holds the identifiers of all food.
fn eat(store: &mut EntityStore, foods: &Vec<EntityId>, cell: Position) -> (eaten: usize)
    requires
        old(store).wf(),
        forall|i: int, j: int| 0 <= i < j < foods.len() ==> foods[i] < foods[j],
        forall|id: EntityId|
            foods@.contains(id) <==> old(store)@.contains_key(id) && old(store)@[id].kind
                == Kind::Food,
    ensures
        final(store).wf(),
        final(store).next_id() == old(store).next_id(),
        final(store)@ == old(store)@.remove_keys(food_in(old(store)@, cell)),
        food_in(old(store)@, cell).finite(),
        eaten == food_in(old(store)@, cell).len(),
{
    let ghost pre = store@;
    let ghost gone = Set::<EntityId>::empty();
    let mut eaten: usize = 0;
    let mut i: usize = 0;
    assert(store@ =~= pre.remove_keys(gone));
    while i < foods.len()
        invariant
            store.wf(),
            store.next_id() == old(store).next_id(),
            pre == old(store)@,
            i <= foods.len(),
            eaten <= i,
            forall|a: int, b: int| 0 <= a < b < foods.len() ==> foods[a] < foods[b],
            forall|id: EntityId|
                foods@.contains(id) <==> pre.contains_key(id) && pre[id].kind == Kind::Food,
            gone.finite(),
            gone.len() == eaten,
            forall|id: EntityId|
                gone.contains(id) <==> food_in(pre, cell).contains(id) && among(
                    foods@,
                    i as int,
                    id,
                ),
            store@ == pre.remove_keys(gone),
        decreases foods.len() - i,
    {
        let id = foods[i];
        proof {
            assert(foods@.contains(id));
            assert(!gone.contains(id)) by {
                if among(foods@, i as int, id) {
                    let j = choose|j: int| 0 <= j < i && #[trigger] foods[j] == id;
                    assert(foods[j] < foods[i as int]);
                }
            }
        }
        let lies_here = match store.get_position(id) {
            Some(p) => p == cell,
            None => false,
        };
        if lies_here {
            store.despawn(id);
            eaten += 1;
            proof {
                gone = gone.insert(id);
                assert(store@ =~= pre.remove_keys(gone));
            }
        }
        proof {
            assert forall|k: EntityId|
                gone.contains(k) <==> food_in(pre, cell).contains(k) && among(
                    foods@,
                    i + 1,
                    k,
                ) by {
                if among(foods@, i + 1, k) {
                    let j = choose|j: int| 0 <= j < i + 1 && #[trigger] foods[j] == k;
                    if j < i {
                        assert(among(foods@, i as int, k));
                    }
                }
                if among(foods@, i as int, k) {
                    let j = choose|j: int| 0 <= j < i && #[trigger] foods[j] == k;
                    assert(among(foods@, i + 1, k));
                }
                if k == id {
                    assert(foods[i as int] == k);
                    assert(among(foods@, i + 1, k));
                }
            }
        }
        i += 1;
    }
    proof {
        assert forall|k: EntityId| food_in(pre, cell).contains(k) implies among(
            foods@,
            i as int,
            k,
        ) by {
            assert(foods@.contains(k));
        }
        assert(gone =~= food_in(pre, cell));
    }
    eaten
}

/// Despawns every entity whose identifier is in `ids`.
fn despawn_all(store: &mut EntityStore, ids: &Vec<EntityId>)
    requires
        old(store).wf(),
    ensures
        final(store).wf(),
        final(store).next_id() == old(store).next_id(),
        final(store)@ == old(store)@.remove_keys(ids@.to_set()),
{
    let ghost pre = store@;
    let mut i: usize = 0;
    assert(store@ =~= pre.remove_keys(ids@.take(0).to_set()));
    while i < ids.len()
        invariant
            store.wf(),
            store.next_id() == old(store).next_id(),
            pre == old(store)@,
            i <= ids.len(),
            store@ == pre.remove_keys(ids@.take(i as int).to_set()),
        decreases ids.len() - i,
    {
        store.despawn(ids[i]);
        proof {
            let done = ids@.take(i as int);
            let next = ids@.take(i + 1);
            assert forall|k: EntityId| next.to_set().contains(k) <==> done.to_set().contains(k)
                || k == ids[i as int] by {
                if next.contains(k) {
                    let j = choose|j: int| 0 <= j < next.len() && next[j] == k;
                    if j < i {
                        assert(done[j] == k);
                    }
                }
                if done.contains(k) {
                    let j = choose|j: int| 0 <= j < done.len() && done[j] == k;
                    assert(next[j] == k);
                }
                if k == ids[i as int] {
                    assert(next[i as int] == k);
                }
            }
            assert(store@ =~= pre.remove_keys(next.to_set()));
        }
        i += 1;
    }
    assert(ids@.take(ids.len() as int) =~= ids@);
}

/// The world of one game.
pub struct World {
    config: Config,
    store: EntityStore,
    segments: Vec<EntityId>,
    heading: Direction,
    last_tail: Option<Position>,
    growth: bool,
    game_over: bool,
}

impl View for World {
    type V = WorldView;

    /// The state of the game.
    closed spec fn view(&self) -> WorldView {
        WorldView {
            config: self.config,
            entities: self.store@,
            next_id: self.store.next_id(),
            segments: self.segments@,
            heading: self.heading,
            last_tail: self.last_tail,
            growth: self.growth,
            game_over: self.game_over,
        }
    }
}

impl World {
    /// The store is well-formed and the state of the game is.
    pub closed spec fn wf(&self) -> bool {
        self.store.wf() && self@.wf()
    }

    /// The state of a well-formed world is well-formed.
    pub proof fn lemma_wf(&self)
        requires
            self.wf(),
        ensures
            self@.wf(),
    {
    }

    /// Starts a game: the world holds the new snake and nothing else.
    pub fn new(config: Config) -> (world: World)
        requires
            config.wf(),
        ensures
            world.wf(),
            world@ == WorldView::initial(config),
    {
        let mut store = EntityStore::new();
        let segments = spawn_snake(&mut store, &config);
        let world = World {
            config,
            store,
            segments,
            heading: config.heading,
            last_tail: None,
            growth: false,
            game_over: false,
        };
        proof {
            WorldView::blank(config).lemma_fresh();
            assert(world@.entities =~= WorldView::initial(config).entities);
        }
        world
    }

    /// Starts a game with the snake laid out in `cells`, from head to tail, and heading
    /// `heading`. Returns `None` where the snake would have fewer than two segments or where
    /// one of the cells lies off the grid.
    pub fn with_snake(config: Config, heading: Direction, cells: &Vec<Position>) -> (r: Option<
        World,
    >)
        requires
            config.wf(),
        ensures
            r is Some <==> cells.len() >= 2 && forall|i: int|
                0 <= i < cells.len() ==> config.arena.contains(#[trigger] cells[i]),
            r matches Some(world) ==> world.wf() && world@ == WorldView::laid_out(
                config,
                heading,
                cells@,
            ),
    {
        if cells.len() < 2 {
            return None;
        }
        let mut store = EntityStore::new();
        let mut segments: Vec<EntityId> = Vec::new();
        let mut i: usize = 0;
        while i < cells.len()
            invariant
                config.wf(),
                i <= cells.len(),
                store.wf(),
                store.next_id() == i,
                segments@ == Seq::new(i as nat, |j: int| j as EntityId),
                store@ == WorldView::laid_out(config, heading, cells@.take(i as int)).entities,
                forall|j: int| 0 <= j < i ==> config.arena.contains(#[trigger] cells[j]),
            decreases cells.len() - i,
        {
            let cell = cells[i];
            if !config.arena.holds(cell) {
                return None;
            }
            let kind = if i == 0 {
                Kind::Head
            } else {
                Kind::Body
            };
            let id = store.spawn(kind, cell);
            segments.push(id);
            i += 1;
            proof {
                assert(segments@ =~= Seq::new(i as nat, |j: int| j as EntityId));
                assert(store@ =~= WorldView::laid_out(
                    config,
                    heading,
                    cells@.take(i as int),
                ).entities);
            }
        }
        let world = World {
            config,
            store,
            segments,
            heading,
            last_tail: None,
            growth: false,
            game_over: false,
        };
        proof {
            assert(cells@.take(i as int) =~= cells@);
            WorldView::lemma_laid_out(config, heading, cells@);
        }
        Some(world)
    }

    /// Returns the set-up of the game.
    pub fn config(&self) -> (r: Config)
        ensures
            r == self@.config,
    {
        self.config
    }

    /// Returns the entity store of the world.
    pub fn store(&self) -> (r: &EntityStore)
        requires
            self.wf(),
        ensures
            r.wf(),
            r@ == self@.entities,
            r.next_id() == self@.next_id,
    {
        &self.store
    }

    /// Returns the identifiers of the snake's segments, from head to tail.
    pub fn segments(&self) -> (r: &Vec<EntityId>)
        ensures
            r@ == self@.segments,
    {
        &self.segments
    }

    /// Returns the cells of the snake, from head to tail.
    pub fn snake(&self) -> (r: Vec<Position>)
        requires
            self.wf(),
        ensures
            r@ == self@.snake(),
    {
        let cells = snapshot(&self.store, &self.segments);
        assert(cells@ =~= self@.snake());
        cells
    }

    /// Returns the cell of the snake's head.
    pub fn head(&self) -> (r: Position)
        requires
            self.wf(),
        ensures
            r == self@.head(),
    {
        assert(self@.entities.contains_key(self@.segments[0]));
        self.store.get_position(self.segments[0]).unwrap()
    }

    /// Returns the heading of the snake's head.
    pub fn heading(&self) -> (r: Direction)
        ensures
            r == self@.heading,
    {
        self.heading
    }

    /// Returns the cell that the tail left at the last movement, if there was a movement.
    pub fn last_tail_position(&self) -> (r: Option<Position>)
        ensures
            r == self@.last_tail,
    {
        self.last_tail
    }

    /// Tells whether a growth signal was raised and not yet handled.
    pub fn growth_pending(&self) -> (r: bool)
        ensures
            r == self@.growth,
    {
        self.growth
    }

    /// Tells whether a game-over signal was raised and not yet handled.
    pub fn game_over_pending(&self) -> (r: bool)
        ensures
            r == self@.game_over,
    {
        self.game_over
    }

    /// Tells whether `n` more entities can be spawned before the identifiers run out.
    pub fn has_room(&self, n: u64) -> (r: bool)
        ensures
            r == self@.can_spawn(n as nat),
    {
        self.store.has_room(n)
    }

    /// Reads the keys held down and turns the head accordingly; a turn right around is
    /// not taken.
    pub fn snake_movement_input(&mut self, keys: PressedKeys)
        requires
            old(self).wf(),
        ensures
            final(self).wf(),
            final(self)@ == old(self)@.steered(keys),
    {
        self.heading = resolve_heading(self.heading, keys);
    }

    /// Moves the snake by one cell: the head steps in its heading and wraps around the
    /// edges of the grid, every other segment takes the place of the one before it, and the
    /// cell that the tail left is remembered. Where the head steps onto a cell that the
    /// snake held before the move, the game-over signal is raised.
    pub fn snake_movement(&mut self)
        requires
            old(self).wf(),
        ensures
            final(self).wf(),
            final(self)@ == old(self)@.moved(),
    {
        let ghost pre = self@;
        let prev = snapshot(&self.store, &self.segments);
        assert(prev@ =~= pre.snake());
        assert(pre.entities.contains_key(pre.segments[0]));
        let head = self.config.arena.advance(prev[0], self.heading);
        if occupied(&prev, head) {
            self.game_over = true;
        }
        shift(&mut self.store, &self.segments, &prev, head);
        self.last_tail = Some(prev[prev.len() - 1]);
        proof {
            pre.lemma_moved();
            assert forall|id: EntityId| #[trigger]
                pre.entities.contains_key(id) implies self@.entities[id]
                == pre.moved().entities[id] by {
                if pre.segments.contains(id) {
                    let i = pre.segments.index_of(id);
                    assert(self@.entities[pre.segments[i]] == (Entity {
                        kind: pre.entities[pre.segments[i]].kind,
                        position: follow(prev@, head, i),
                    }));
                }
            }
            assert(self@.entities =~= pre.moved().entities);
        }
    }

    /// Lets the snake eat: every piece of food that lies in the cell of the head is
    /// despawned, and where there was one the growth signal is raised. Returns how many
    /// pieces were eaten.
    pub fn snake_eating(&mut self) -> (eaten: usize)
        requires
            old(self).wf(),
        ensures
            final(self).wf(),
            final(self)@ == old(self)@.fed(),
            old(self)@.food_at(old(self)@.head()).finite(),
            eaten == old(self)@.food_at(old(self)@.head()).len(),
            eaten > 0 <==> old(self)@.eats(),
    {
        let ghost pre = self@;
        assert(pre.entities.contains_key(pre.segments[0]));
        let head = self.store.get_position(self.segments[0]).unwrap();
        let foods = self.store.query(Tag::Food);
        let eaten = eat(&mut self.store, &foods, head);
        if eaten > 0 {
            self.growth = true;
        }
        proof {
            let lying = pre.food_at(pre.head());
            if eaten > 0 {
                assert(lying.contains(lying.choose()));
            } else {
                lying.lemma_len0_is_empty();
            }
            pre.lemma_fed();
        }
        eaten
    }

    /// Handles the growth signal: where it was raised, one new segment is spawned in the
    /// cell that the tail left at the last movement and becomes the new tail.
    pub fn snake_growth(&mut self)
        requires
            old(self).wf(),
            old(self)@.growth ==> old(self)@.last_tail is Some && old(self)@.can_spawn(1),
        ensures
            final(self).wf(),
            final(self)@ == old(self)@.grown(),
    {
        let ghost pre = self@;
        if self.growth {
            let id = spawn_segment(&mut self.store, self.last_tail.unwrap());
            self.segments.push(id);
            self.growth = false;
        }
        proof {
            pre.lemma_grown();
        }
    }

    /// Handles the game-over signal: where it was raised, all food and every part of the
    /// snake are despawned and a new snake is spawned as at the start of a game.
    pub fn game_over(&mut self)
        requires
            old(self).wf(),
            old(self)@.game_over ==> old(self)@.can_spawn(2),
        ensures
            final(self).wf(),
            final(self)@ == old(self)@.restarted(),
    {
        let ghost pre = self@;
        if self.game_over {
            let food = self.store.query(Tag::Food);
            let snake = self.store.query(Tag::SnakeSegment);
            despawn_all(&mut self.store, &food);
            despawn_all(&mut self.store, &snake);
            proof {
                assert forall|id: EntityId| !self.store@.contains_key(id) by {
                    if pre.entities.contains_key(id) {
                        if pre.entities[id].kind == Kind::Food {
                            assert(food@.contains(id));
                        } else {
                            assert(pre.entities[id].kind.has_spec(Tag::SnakeSegment));
                            assert(snake@.contains(id));
                        }
                    }
                }
                assert(self.store@ =~= Map::<EntityId, Entity>::empty());
            }
            self.segments = spawn_snake(&mut self.store, &self.config);
            self.heading = self.config.heading;
            self.game_over = false;
        }
        proof {
            pre.lemma_restarted();
        }
    }

    /// Advances the game by one movement tick: the snake moves, eats and grows, and where
    /// it ran into itself the game begins anew. No signal outlives the tick.
    pub fn tick(&mut self)
        requires
            old(self).wf(),
            old(self)@.can_spawn(3),
        ensures
            final(self).wf(),
            final(self)@ == old(self)@.ticked(),
            !final(self)@.growth,
            !final(self)@.game_over,
            old(self)@.next_id <= final(self)@.next_id <= old(self)@.next_id + 3,
    {
        proof {
            self@.lemma_ticked();
        }
        self.snake_movement();
        self.snake_eating();
        self.snake_growth();
        self.game_over();
    }

    /// Puts one piece of food in `cell` and returns its identifier. Nothing is asked of
    /// the cell but that it lies on the grid: the snake or other food may be there.
    pub fn spawn_food_at(&mut self, cell: Position) -> (id: EntityId)
        requires
            old(self).wf(),
            old(self)@.can_spawn(1),
            old(self)@.config.arena.contains(cell),
        ensures
            final(self).wf(),
            final(self)@ == old(self)@.with_food(cell),
            id == old(self)@.next_id,
    {
        proof {
            self@.lemma_with_food(cell);
        }
        self.store.spawn(Kind::Food, cell)
    }

    /// Puts one piece of food in a cell of the grid that is drawn at random.
    pub fn food_spawner(&mut self)
        requires
            old(self).wf(),
            old(self)@.can_spawn(1),
        ensures
            final(self).wf(),
            exists|cell: Position|
                old(self)@.config.arena.contains(cell) && final(self)@
                    == #[trigger] old(self)@.with_food(cell),
            final(self)@.next_id == old(self)@.next_id + 1,
            final(self)@.snake() == old(self)@.snake(),
    {
        let x: i32 = random_below(self.config.arena.width);
        let y: i32 = random_below(self.config.arena.height);
        proof {
            self@.lemma_with_food(Position { x, y });
        }
        self.spawn_food_at(Position { x, y });
    }
}

} // verus!
