//! The game as a whole: the world with its opening cast, the order in which
//! the systems run, and the frame update.

use vstd::prelude::*;
use vstd::pervasive::unreached;
use crate::components::{
    Archetype, Collidable, DeltaTime, ParticleEmitter, Player, Position, Renderable, Velocity,
};
use crate::input::{handle_input, input_handled, Key};
use crate::level::spawn_all;
use crate::render::{picture, render_game, Frame};
use crate::schedule::{declared, eager, plan, respects, runs_before, waits};
use crate::systems::collision::{collision_pass, CollisionSystem};
use crate::systems::enemy_ai::{patrol_pass, EnemyAISystem};
use crate::systems::logic::{logic_pass, LogicSystem};
use crate::systems::movement::{movement_pass, MovementSystem};
use crate::systems::particle::{particle_pass, retired, Emission, ParticleSystem};
use crate::world::{
    flush, flushed, lookup, new_world, snapshot, world_contents, world_doomed, world_ready,
    world_wear, WEAR_LIMIT,
};

verus! {

/// The systems of a frame.
#[derive(Clone, Copy, Debug, PartialEq, Eq)]
pub enum Stage {
    Patrol,
    Movement,
    Collision,
    Particles,
    Logic,
}

/// The system declared under the given number.
pub open spec fn stage_of(index: usize) -> Stage {
    if index == 0 {
        Stage::Patrol
    } else if index == 1 {
        Stage::Movement
    } else if index == 2 {
        Stage::Collision
    } else if index == 3 {
        Stage::Particles
    } else {
        Stage::Logic
    }
}

/// What each system runs after: movement follows the patrol, and collision,
/// particles and game logic follow movement.
pub open spec fn stage_dependencies() -> Seq<Seq<usize>> {
    seq![seq![], seq![0usize], seq![1usize], seq![1usize], seq![1usize]]
}

/// What one system does to a world. The particle pass spawns only while
/// the game is `young`; after that it only retires what has outlived its
/// lifetime.
pub open spec fn stage_ran(
    stage: Stage,
    before: specs::World,
    after: specs::World,
    ticks: nat,
    young: bool,
) -> bool {
    match stage {
        Stage::Patrol => patrol_pass(before, after, ticks),
        Stage::Movement => movement_pass(before, after, ticks),
        Stage::Collision => collision_pass(before, after),
        Stage::Particles => if young {
            exists|spawned: Seq<Emission>| particle_pass(before, after, spawned, ticks)
        } else {
            retired(before, after, ticks)
        },
        Stage::Logic => logic_pass(before, after),
    }
}

/// Whether `trail` records the worlds of a frame: it starts with the world
/// before the first system, and each system numbered in `order` leads from
/// one world of the trail to the next.
pub open spec fn stages_ran(
    order: Seq<usize>,
    trail: Seq<specs::World>,
    ticks: nat,
    young: bool,
) -> bool {
    &&& trail.len() == order.len() + 1
    &&& forall|k: int|
        0 <= k < order.len() ==> stage_ran(
            stage_of(#[trigger] order[k]),
            trail[k],
            trail[k + 1],
            ticks,
            young,
        )
}

/// What a frame does to a world: the systems run in `order`, and the
/// deletions they asked for are then carried out.
pub open spec fn frame_ran(
    order: Seq<usize>,
    before: specs::World,
    after: specs::World,
    ticks: nat,
    young: bool,
) -> bool {
    exists|trail: Seq<specs::World>|
        #[trigger] stages_ran(order, trail, ticks, young) && trail.first() == before && flushed(
            trail.last(),
            after,
        )
}

/// The player at the start of the game.
pub open spec fn hero() -> Archetype {
    Archetype {
        position: Some(Position { x: 100_000, y: 100_000 }),
        velocity: Some(Velocity { x: 0, y: 0 }),
        renderable: Some(Renderable { width: 40_000, height: 40_000, color: (0, 255, 0) }),
        collidable: Some(Collidable { radius: 20_000 }),
        player: Some(Player { speed: 200_000, jump_force: 500_000, score: 0 }),
        emitter: Some(ParticleEmitter { rate: 2_000, lifetime: 30, color: (100, 255, 100) }),
        gravity: true,
        ..Archetype::vacant()
    }
}

/// A platform with its top-left corner at `(x, y)`, `w` wide and `h` high,
/// all in whole units.
pub open spec fn ledge(x: int, y: int, w: int, h: int, color: (u8, u8, u8)) -> Archetype {
    Archetype {
        position: Some(Position { x: (x * 1000) as i32, y: (y * 1000) as i32 }),
        renderable: Some(
            Renderable { width: (w * 1000) as i32, height: (h * 1000) as i32, color: color },
        ),
        collidable: Some(Collidable { radius: (w * 500) as i32 }),
        platform: true,
        ..Archetype::vacant()
    }
}

/// The collectible with the given number: they stand a hundred units apart,
/// alternating between two heights.
pub open spec fn coin(number: int) -> Archetype {
    Archetype {
        position: Some(
            Position {
                x: (220_000 + number * 100_000) as i32,
                y: (150_000 + (number % 2) * 100_000) as i32,
            },
        ),
        renderable: Some(Renderable { width: 20_000, height: 20_000, color: (255, 215, 0) }),
        collidable: Some(Collidable { radius: 10_000 }),
        collectible: true,
        ..Archetype::vacant()
    }
}

/// The entities a game starts with: the player, the ground, three floating
/// platforms and five collectibles.
pub open spec fn opening_cast() -> Seq<Archetype> {
    seq![
        hero(),
        ledge(0, 550, 800, 50, (100, 100, 100)),
        ledge(200, 400, 100, 20, (150, 150, 255)),
        ledge(400, 300, 100, 20, (150, 150, 255)),
        ledge(600, 200, 100, 20, (150, 150, 255)),
        coin(0),
        coin(1),
        coin(2),
        coin(3),
        coin(4),
    ]
}

/// The system declared under a number.
pub fn stage_at(index: usize) -> (r: Stage)
    ensures
        r == stage_of(index),
{
    if index == 0 {
        Stage::Patrol
    } else if index == 1 {
        Stage::Movement
    } else if index == 2 {
        Stage::Collision
    } else if index == 3 {
        Stage::Particles
    } else {
        Stage::Logic
    }
}

/// The dependencies of the systems, by number.
pub fn dependencies() -> (r: Vec<Vec<usize>>)
    ensures
        declared(&r) == stage_dependencies(),
{
    let mut deps: Vec<Vec<usize>> = Vec::new();
    deps.push(Vec::new());
    deps.push(vec![0usize]);
    deps.push(vec![1usize]);
    deps.push(vec![1usize]);
    deps.push(vec![1usize]);
    assert(declared(&deps) =~~= stage_dependencies());
    deps
}

fn make_ledge(x: i32, y: i32, w: i32, h: i32, color: (u8, u8, u8)) -> (r: Archetype)
    requires
        0 <= x <= 1000,
        0 <= y <= 1000,
        0 <= w <= 1000,
        0 <= h <= 1000,
    ensures
        r == ledge(x as int, y as int, w as int, h as int, color),
{
    Archetype {
        position: Some(Position { x: x * 1000, y: y * 1000 }),
        renderable: Some(Renderable { width: w * 1000, height: h * 1000, color: color }),
        collidable: Some(Collidable { radius: w * 500 }),
        platform: true,
        ..Archetype::empty()
    }
}

fn make_coin(number: i32) -> (r: Archetype)
    requires
        0 <= number < 5,
    ensures
        r == coin(number as int),
{
    Archetype {
        position: Some(
            Position { x: 220_000 + number * 100_000, y: 150_000 + (number % 2) * 100_000 },
        ),
        renderable: Some(Renderable { width: 20_000, height: 20_000, color: (255, 215, 0) }),
        collidable: Some(Collidable { radius: 10_000 }),
        collectible: true,
        ..Archetype::empty()
    }
}

/// The order in which the systems run: the patrol, movement, collision,
/// particles, game logic.
pub open spec fn stage_order() -> Seq<usize> {
    seq![0usize, 1usize, 2usize, 3usize, 4usize]
}

/// The dependencies of the systems leave one order in which no system
/// waits longer than it has to: the order in which they were declared.
pub proof fn schedule_is_fixed(order: Seq<usize>)
    requires
        respects(stage_dependencies(), order),
        eager(stage_dependencies(), order),
    ensures
        order == stage_order(),
{
    let deps = stage_dependencies();
    assert(deps[1][0] == 0usize && deps[2][0] == 1usize && deps[3][0] == 1usize && deps[4][0]
        == 1usize);
    lemma_runs_next(order, 0);
    lemma_runs_next(order, 1);
    lemma_runs_next(order, 2);
    lemma_runs_next(order, 3);
    lemma_runs_next(order, 4);
    assert(order =~= stage_order());
}

proof fn lemma_runs_next(order: Seq<usize>, k: int)
    requires
        respects(stage_dependencies(), order),
        eager(stage_dependencies(), order),
        0 <= k < 5,
        forall|m: int| 0 <= m < k ==> order[m] == m,
    ensures
        order[k] == k,
{
    let deps = stage_dependencies();
    let s = order[k];
    if s < k {
        assert(order[s as int] == s);
    } else if s > k {
        assert(runs_before(order, k, k as usize) || waits(deps, order, k, k));
        if runs_before(order, k, k as usize) {
            let m = choose|m: int| 0 <= m < k && m < order.len() && #[trigger] order[m] == k as usize;
        } else {
            let j = choose|j: int|
                0 <= j < deps[k].len() && !runs_before(order, k, #[trigger] deps[k][j]);
            let d = deps[k][j];
            assert(d < k);
            assert(order[d as int] == d);
        }
    }
}

proof fn lemma_stage_order_respects()
    ensures
        respects(stage_dependencies(), stage_order()),
{
    let order = stage_order();
    assert(order[0] == 0usize && order[1] == 1usize);
    assert(runs_before(order, 1, 0usize));
    assert(runs_before(order, 2, 1usize));
    assert(runs_before(order, 3, 1usize));
    assert(runs_before(order, 4, 1usize));
}

/// The entities a game starts with.
pub fn opening() -> (r: Vec<Archetype>)
    ensures
        r@ == opening_cast(),
{
    let mut cast: Vec<Archetype> = Vec::new();
    cast.push(
        Archetype {
            position: Some(Position { x: 100_000, y: 100_000 }),
            velocity: Some(Velocity { x: 0, y: 0 }),
            renderable: Some(Renderable { width: 40_000, height: 40_000, color: (0, 255, 0) }),
            collidable: Some(Collidable { radius: 20_000 }),
            player: Some(Player { speed: 200_000, jump_force: 500_000, score: 0 }),
            emitter: Some(ParticleEmitter { rate: 2_000, lifetime: 30, color: (100, 255, 100) }),
            gravity: true,
            ..Archetype::empty()
        },
    );
    cast.push(make_ledge(0, 550, 800, 50, (100, 100, 100)));
    cast.push(make_ledge(200, 400, 100, 20, (150, 150, 255)));
    cast.push(make_ledge(400, 300, 100, 20, (150, 150, 255)));
    cast.push(make_ledge(600, 200, 100, 20, (150, 150, 255)));
    let mut i: i32 = 0;
    while i < 5
        invariant
            0 <= i <= 5,
            cast@.len() == 5 + i,
            cast@.take(5) == opening_cast().take(5),
            forall|k: int| 0 <= k < i ==> cast@[5 + k] == coin(k),
        decreases 5 - i,
    {
        let ghost before = cast@;
        cast.push(make_coin(i));
        assert(cast@.take(5) =~= before.take(5));
        i += 1;
    }
    assert(cast@ =~= opening_cast()) by {
        assert forall|k: int| 0 <= k < 10 implies cast@[k] == opening_cast()[k] by {
            if k < 5 {
                assert(cast@.take(5)[k] == opening_cast().take(5)[k]);
            } else {
                assert(cast@[5 + (k - 5)] == coin(k - 5));
            }
        }
    }
    cast
}

/// A running game.
pub struct GameState {
    world: specs::World,
    order: Vec<usize>,
    cast: Vec<specs::Entity>,
    frames: u64,
}

impl GameState {
    /// The number of frames the game has run, as far as a `u64` counts.
    pub closed spec fn age(self) -> nat {
        self.frames as nat
    }

    /// Whether the particle pass still spawns: a frame frees a slot of the
    /// world at most once, so a game is young for as many frames as a slot
    /// can be freed.
    pub open spec fn young(self) -> bool {
        self.age() < WEAR_LIMIT
    }

    /// Whether the game is fit to run: its world is ready, its systems are
    /// scheduled in [`stage_order`], and no slot of the world has been
    /// freed more often than the game has run frames.
    pub open spec fn ready(self) -> bool {
        &&& world_ready(self.state())
        &&& self.schedule() == stage_order()
        &&& self.age() < u64::MAX ==> world_wear(self.state()) <= self.age()
    }

    /// The world of the game.
    pub closed spec fn state(self) -> specs::World {
        self.world
    }

    /// The order in which the systems run, by number.
    pub closed spec fn schedule(self) -> Seq<usize> {
        self.order@
    }

    /// The entities the game started with, in the order of [`opening_cast`].
    pub closed spec fn starters(self) -> Seq<specs::Entity> {
        self.cast@
    }

    /// A new game: a world that holds the opening cast and nothing else,
    /// and the schedule that [`plan`] makes of the dependencies of the
    /// systems.
    pub fn new() -> (game: GameState)
        ensures
            game.ready(),
            game.age() == 0,
            game.starters().len() == opening_cast().len(),
            game.starters().no_duplicates(),
            world_contents(game.state()).dom() == game.starters().to_set(),
            forall|j: int|
                0 <= j < game.starters().len() ==> lookup(
                    game.state(),
                    #[trigger] game.starters()[j],
                ) == opening_cast()[j],
            world_doomed(game.state()) == Set::<specs::Entity>::empty(),
    {
        let mut world = new_world();
        let cast = opening();
        let ids = match spawn_all(&mut world, &cast) {
            Some(ids) => ids,
            None => unreached(),
        };
        assert(world_contents(world).dom() =~= ids@.to_set());
        let deps = dependencies();
        let order = match plan(&deps) {
            Ok(order) => order,
            Err(_) => {
                proof {
                    lemma_stage_order_respects();
                }
                unreached()
            },
        };
        proof {
            schedule_is_fixed(order@);
        }
        GameState { world, order, cast: ids, frames: 0 }
    }

    /// The number of frames the game has run.
    pub fn frames(&self) -> (n: u64)
        ensures
            n == self.age(),
    {
        self.frames
    }

    /// The world, for reading.
    pub fn world(&self) -> (w: &specs::World)
        ensures
            *w == self.state(),
    {
        &self.world
    }

    /// The entities the game started with.
    pub fn cast(&self) -> (ids: &Vec<specs::Entity>)
        ensures
            ids@ == self.starters(),
    {
        &self.cast
    }

    /// The systems in the order in which they run.
    pub fn stages(&self) -> (r: Vec<Stage>)
        ensures
            r@ == self.schedule().map_values(|i: usize| stage_of(i)),
    {
        let mut out: Vec<Stage> = Vec::new();
        let mut k: usize = 0;
        while k < self.order.len()
            invariant
                k <= self.order@.len(),
                out@.len() == k,
                forall|j: int| 0 <= j < k ==> out@[j] == stage_of(#[trigger] self.order@[j]),
            decreases self.order.len() - k,
        {
            out.push(stage_at(self.order[k]));
            k += 1;
        }
        assert(out@ =~= self.schedule().map_values(|i: usize| stage_of(i)));
        out
    }

    /// Advances the game by one frame of `dt`: runs the systems in the
    /// order of the schedule and then carries out the deletions. Once the
    /// game is no longer [`young`](Self::young), the particle pass spawns
    /// nothing more.
    pub fn update(&mut self, dt: DeltaTime)
        requires
            old(self).ready(),
        ensures
            final(self).ready(),
            final(self).schedule() == old(self).schedule(),
            final(self).starters() == old(self).starters(),
            final(self).age() == if old(self).age() < u64::MAX {
                old(self).age() + 1
            } else {
                old(self).age()
            },
            frame_ran(
                old(self).schedule(),
                old(self).state(),
                final(self).state(),
                dt.0 as nat,
                old(self).young(),
            ),
    {
        let ghost mut trail = seq![self.world];
        let ghost ticks = dt.0 as nat;
        let young = self.frames < WEAR_LIMIT;
        let n = self.order.len();
        let mut k: usize = 0;
        while k < n
            invariant
                n == self.order@.len(),
                k <= n,
                self.order == old(self).order,
                self.cast == old(self).cast,
                self.frames == old(self).frames,
                ticks == dt.0 as nat,
                young == (self.frames < WEAR_LIMIT),
                world_ready(self.world),
                world_wear(self.world) == world_wear(old(self).world),
                self.frames < u64::MAX ==> world_wear(self.world) <= self.frames,
                self.order@ == stage_order(),
                stages_ran(self.order@.take(k as int), trail, ticks, young),
                trail.first() == old(self).world,
                trail.last() == self.world,
            decreases n - k,
        {
            let ghost here = self.world;
            let stage = stage_at(self.order[k]);
            match stage {
                Stage::Patrol => {
                    EnemyAISystem.run(&mut self.world, dt);
                },
                Stage::Movement => {
                    MovementSystem.run(&mut self.world, dt);
                },
                Stage::Collision => {
                    let _ = CollisionSystem.run(&mut self.world);
                },
                Stage::Particles => {
                    if young {
                        let _ = ParticleSystem.run(&mut self.world, dt);
                    } else {
                        ParticleSystem.retire(&mut self.world, dt);
                    }
                },
                Stage::Logic => {
                    LogicSystem.run(&mut self.world);
                },
            }
            proof {
                let done = self.order@.take(k as int);
                let next = self.order@.take(k + 1);
                let walked = trail;
                trail = trail.push(self.world);
                assert(stage_ran(stage, here, self.world, ticks, young));
                assert forall|j: int| 0 <= j < next.len() implies stage_ran(
                    stage_of(#[trigger] next[j]),
                    trail[j],
                    trail[j + 1],
                    ticks,
                    young,
                ) by {
                    if j < k {
                        assert(done[j] == next[j]);
                        assert(walked[j] == trail[j] && walked[j + 1] == trail[j + 1]);
                    }
                }
            }
            k += 1;
        }
        assert(self.order@.take(n as int) =~= self.order@);
        flush(&mut self.world);
        if self.frames < u64::MAX {
            self.frames = self.frames + 1;
        }
        assert(stages_ran(self.order@, trail, ticks, young) && trail.first() == old(self).world
            && flushed(trail.last(), self.world));
    }

    /// Applies a key event to the players.
    pub fn handle_input(&mut self, key: Key, pressed: bool)
        requires
            old(self).ready(),
        ensures
            final(self).ready(),
            final(self).schedule() == old(self).schedule(),
            final(self).starters() == old(self).starters(),
            final(self).age() == old(self).age(),
            input_handled(old(self).state(), final(self).state(), key, pressed),
    {
        handle_input(&mut self.world, key, pressed);
    }

    /// The picture of the game as it stands.
    pub fn render(&self) -> (frame: Frame)
        requires
            self.ready(),
        ensures
            picture(snapshot(self.state()), frame),
    {
        render_game(&self.world)
    }
}

} // verus!
