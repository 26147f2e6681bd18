//! Particles: emitters spawn them at random, and whatever carries a
//! lifetime is deleted once that lifetime has run out.

use vstd::prelude::*;
use rand::Rng;
use crate::components::{
    Archetype, DeltaTime, Lifetime, ParticleEmitter, Position, Renderable, Velocity,
};
use crate::units::{sat, saturate, scale, PARTICLE_SIZE, PARTICLE_SPEED};
use crate::systems::collision::ascending;
use crate::world::{
    capture, commit, delete_listed, exists_in, is_listed, lookup, snapshot, spawn,
    world_contents, world_doomed, world_order, world_ready, world_wear, CAPACITY, WEAR_LIMIT,
};

verus! {

/// Spawns particles and retires what has outlived its lifetime.
pub struct ParticleSystem;

/// A particle and the emitter it came from.
#[derive(Clone, Copy, Debug)]
pub struct Emission {
    pub emitter: specs::Entity,
    pub particle: specs::Entity,
}

/// Draws that decide an emission lie in `[0, ROLL_RANGE)`.
pub const ROLL_RANGE: i32 = 1000;

/// One entity after its lifetime, if it has one, went down by `ticks`.
pub open spec fn aged(a: Archetype, ticks: nat) -> Archetype {
    match a.lifetime {
        Some(l) => Archetype {
            lifetime: Some(Lifetime { remaining: sat(l.remaining - ticks) as i32 }),
            ..a
        },
        None => a,
    }
}

/// Whether the lifetime of `a` runs out within `ticks`.
pub open spec fn expires(a: Archetype, ticks: nat) -> bool {
    a.lifetime matches Some(l) && l.remaining - ticks <= 0
}

/// Whether an emitter of the given rate spawns on the draw `roll`: the draw,
/// taken as thousandths of one, is below the expected number of spawns in
/// `ticks` ticks.
pub open spec fn emits(roll: int, rate: int, ticks: nat) -> bool {
    roll < rate * ticks
}

/// Whether each component of a particle's velocity is in range.
pub open spec fn launch_speed(v: int) -> bool {
    -(PARTICLE_SPEED as int) <= v < PARTICLE_SPEED as int
}

/// The particle that an emitter at `p` spawns with velocity `(vx, vy)`.
pub open spec fn spark(p: Position, em: ParticleEmitter, vx: i32, vy: i32) -> Archetype {
    Archetype {
        position: Some(p),
        velocity: Some(Velocity { x: vx, y: vy }),
        renderable: Some(
            Renderable { width: PARTICLE_SIZE, height: PARTICLE_SIZE, color: em.color },
        ),
        lifetime: Some(Lifetime { remaining: em.lifetime }),
        ..Archetype::vacant()
    }
}

/// Whether `a` is an emitter that some draw makes spawn within `ticks`.
pub open spec fn may_emit(a: Archetype, ticks: nat) -> bool {
    a.position is Some && a.emitter is Some && a.emitter->0.rate * ticks > 0
}

/// Whether `a` is an emitter that every draw makes spawn within `ticks`.
pub open spec fn must_emit(a: Archetype, ticks: nat) -> bool {
    a.position is Some && a.emitter is Some && a.emitter->0.rate * ticks >= ROLL_RANGE
}

/// Whether `particle` is what the emitter `a` spawns for some velocity in
/// range.
pub open spec fn spawned_by(a: Archetype, particle: Archetype) -> bool {
    exists|vx: i32, vy: i32|
        launch_speed(vx as int) && launch_speed(vy as int) && particle == #[trigger] spark(
            a.position->0,
            a.emitter->0,
            vx,
            vy,
        )
}

/// A uniform draw from `[low, high)`.
///
/// Trusted: `Rng::gen_range` on `thread_rng()` returns a value of the
/// half-open range it is given. It panics on an empty range, which is
/// excluded here, and where the operating system cannot seed the generator,
/// which is treated like running out of memory.
#[verifier::external_body]
fn random_in(low: i32, high: i32) -> (r: i32)
    requires
        low < high,
    ensures
        low <= r < high,
{
    rand::thread_rng().gen_range(low..high)
}

/// One entity after its lifetime went down.
pub fn age(a: Archetype, ticks: u32) -> (r: Archetype)
    ensures
        r == aged(a, ticks as nat),
{
    match a.lifetime {
        Some(l) => Archetype {
            lifetime: Some(Lifetime { remaining: saturate(l.remaining as i64 - ticks as i64) }),
            ..a
        },
        None => a,
    }
}

/// Whether the lifetime of `a` runs out within `ticks`.
pub fn is_expiring(a: &Archetype, ticks: u32) -> (r: bool)
    ensures
        r == expires(*a, ticks as nat),
{
    match a.lifetime {
        Some(l) => l.remaining as i64 - ticks as i64 <= 0,
        None => false,
    }
}

/// Decides an emission on a draw.
pub fn should_emit(roll: i32, rate: i32, ticks: u32) -> (r: bool)
    ensures
        r == emits(roll as int, rate as int, ticks as nat),
{
    (roll as i64) < scale(rate, ticks)
}

/// The particle spawned by an emitter.
pub fn make_particle(p: Position, em: ParticleEmitter, vx: i32, vy: i32) -> (r: Archetype)
    ensures
        r == spark(p, em, vx, vy),
{
    Archetype {
        position: Some(p),
        velocity: Some(Velocity { x: vx, y: vy }),
        renderable: Some(
            Renderable { width: PARTICLE_SIZE, height: PARTICLE_SIZE, color: em.color },
        ),
        collidable: None,
        player: None,
        health: None,
        lifetime: Some(Lifetime { remaining: em.lifetime }),
        emitter: None,
        enemy: false,
        platform: false,
        gravity: false,
        grounded: false,
        collectible: false,
        goal: false,
    }
}

/// Every entity after its lifetime went down.
pub fn age_bodies(bodies: &Vec<Archetype>, ticks: u32) -> (r: Vec<Archetype>)
    ensures
        r@ == bodies@.map_values(|a: Archetype| aged(a, ticks as nat)),
{
    let mut out: Vec<Archetype> = Vec::new();
    let mut i: usize = 0;
    while i < bodies.len()
        invariant
            i <= bodies.len(),
            out@.len() == i,
            forall|j: int| 0 <= j < i ==> out@[j] == aged(#[trigger] bodies@[j], ticks as nat),
        decreases bodies.len() - i,
    {
        out.push(age(bodies[i], ticks));
        i += 1;
    }
    assert(out@ =~= bodies@.map_values(|a: Archetype| aged(a, ticks as nat)));
    out
}

/// Whether `em` records a particle that its emitter spawned in the frame
/// that led from `before` to `after`.
pub open spec fn emission_holds(
    before: specs::World,
    after: specs::World,
    em: Emission,
    ticks: nat,
) -> bool {
    &&& exists_in(before, em.emitter)
    &&& may_emit(lookup(before, em.emitter), ticks)
    &&& !exists_in(before, em.particle)
    &&& exists_in(after, em.particle)
    &&& spawned_by(lookup(before, em.emitter), lookup(after, em.particle))
}

/// Whether `list` names the entity `e` as a new particle.
pub open spec fn names_particle(list: Seq<Emission>, e: specs::Entity) -> bool {
    exists|j: int| 0 <= j < list.len() && (#[trigger] list[j]).particle == e
}

/// Whether `list` names the entity `e` as an emitter that spawned.
pub open spec fn names_emitter(list: Seq<Emission>, e: specs::Entity) -> bool {
    exists|j: int| 0 <= j < list.len() && (#[trigger] list[j]).emitter == e
}

/// Whether no particle and no emitter occurs twice in `list`.
pub open spec fn distinct_emissions(list: Seq<Emission>) -> bool {
    forall|i: int, j: int|
        0 <= i < j < list.len() ==> (#[trigger] list[i]).particle != (#[trigger] list[j]).particle
            && list[i].emitter != list[j].emitter
}

/// Whether the emitters named in `list` follow each other as they do in
/// `order`.
pub open spec fn in_emitter_order(order: Seq<specs::Entity>, list: Seq<Emission>) -> bool {
    exists|places: Seq<int>|
        {
            &&& places.len() == list.len()
            &&& forall|j: int|
                0 <= j < places.len() ==> 0 <= #[trigger] places[j] < order.len()
                    && order[places[j]] == list[j].emitter
            &&& forall|i: int, j: int|
                0 <= i < j < places.len() ==> #[trigger] places[i] < #[trigger] places[j]
        }
}

/// What the particle pass does to a world, given what it spawned.
///
/// Every entity that existed is [`aged`], and is marked for deletion if its
/// lifetime ran out. Each emitter spawns at most one particle: none if no
/// draw could make it spawn, one if every draw does, unless the world has
/// filled up. The new particles are not aged in the frame that spawns
/// them.
pub open spec fn particle_pass(
    before: specs::World,
    after: specs::World,
    spawned: Seq<Emission>,
    ticks: nat,
) -> bool {
    &&& world_ready(after)
    &&& world_wear(after) == world_wear(before)
    &&& world_order(after).len() == world_order(before).len() + spawned.len()
    &&& spawned.len() > 0 ==> world_order(after).len() <= CAPACITY
    &&& forall|e: specs::Entity|
        exists_in(before, e) ==> exists_in(after, e) && lookup(after, e) == aged(
            lookup(before, e),
            ticks,
        )
    &&& forall|e: specs::Entity|
        exists_in(after, e) <==> exists_in(before, e) || names_particle(spawned, e)
    &&& forall|e: specs::Entity|
        world_doomed(after).contains(e) <==> world_doomed(before).contains(e) || (exists_in(
            before,
            e,
        ) && expires(lookup(before, e), ticks))
    &&& forall|j: int|
        0 <= j < spawned.len() ==> emission_holds(before, after, #[trigger] spawned[j], ticks)
    &&& distinct_emissions(spawned)
    &&& in_emitter_order(world_order(before), spawned)
    &&& world_order(after).len() < CAPACITY ==> forall|e: specs::Entity|
        exists_in(before, e) && must_emit(lookup(before, e), ticks) ==> names_emitter(spawned, e)
}

/// The indices of the bodies whose lifetime runs out within `ticks`, in
/// ascending order.
pub fn find_expired(bodies: &Vec<Archetype>, ticks: u32) -> (r: Vec<usize>)
    ensures
        ascending(r@),
        forall|k: usize|
            r@.contains(k) <==> k < bodies@.len() && expires(bodies@[k as int], ticks as nat),
        forall|j: int| 0 <= j < r@.len() ==> (#[trigger] r@[j]) < bodies@.len(),
{
    let mut out: Vec<usize> = Vec::new();
    let mut i: usize = 0;
    while i < bodies.len()
        invariant
            i <= bodies.len(),
            ascending(out@),
            forall|j: int| 0 <= j < out@.len() ==> (#[trigger] out@[j]) < i,
            forall|k: usize| out@.contains(k) <==> k < i && expires(bodies@[k as int], ticks as nat),
        decreases bodies.len() - i,
    {
        if is_expiring(&bodies[i], ticks) {
            let ghost prev = out@;
            out.push(i);
            assert forall|k: usize|
                out@.contains(k) <==> k < i + 1 && expires(bodies@[k as int], ticks as nat) by {
                if out@.contains(k) {
                    let j = choose|j: int| 0 <= j < out@.len() && out@[j] == k;
                    if j < prev.len() {
                        assert(prev[j] == k);
                        assert(prev.contains(k));
                    }
                }
                if k < i + 1 && expires(bodies@[k as int], ticks as nat) {
                    if k == i {
                        assert(out@[prev.len() as int] == k);
                    } else {
                        assert(prev.contains(k));
                        let j = choose|j: int| 0 <= j < prev.len() && prev[j] == k;
                        assert(out@[j] == k);
                    }
                }
            }
        }
        i += 1;
    }
    out
}

/// What retiring does to a world: every entity is [`aged`], and those whose
/// lifetime ran out are marked for deletion.
pub open spec fn retired(before: specs::World, after: specs::World, ticks: nat) -> bool {
    &&& world_ready(after)
    &&& world_wear(after) == world_wear(before)
    &&& world_order(after) == world_order(before)
    &&& world_contents(after).dom() == world_contents(before).dom()
    &&& snapshot(after) == snapshot(before).map_values(|a: Archetype| aged(a, ticks))
    &&& forall|e: specs::Entity|
        world_doomed(after).contains(e) <==> world_doomed(before).contains(e) || (exists_in(
            before,
            e,
        ) && expires(lookup(before, e), ticks))
}

/// Whether `places` tells, for each emission of `spawned`, which emitter of
/// `ids` it came from, and that emitter could spawn and did spawn the
/// particle recorded.
spec fn traced(
    before: specs::World,
    after: specs::World,
    ids: Seq<specs::Entity>,
    bodies: Seq<Archetype>,
    spawned: Seq<Emission>,
    places: Seq<int>,
    ticks: nat,
) -> bool {
    &&& places.len() == spawned.len()
    &&& forall|a: int, b: int|
        0 <= a < b < places.len() ==> #[trigger] places[a] < #[trigger] places[b]
    &&& forall|a: int, b: int|
        0 <= a < b < spawned.len() ==> (#[trigger] spawned[a]).particle != (
        #[trigger] spawned[b]).particle
    &&& forall|j: int|
        0 <= j < places.len() ==> {
            &&& 0 <= #[trigger] places[j] < ids.len()
            &&& ids[places[j]] == spawned[j].emitter
            &&& may_emit(bodies[places[j]], ticks)
            &&& !exists_in(before, spawned[j].particle)
            &&& exists_in(after, spawned[j].particle)
            &&& spawned_by(bodies[places[j]], lookup(after, spawned[j].particle))
        }
}

/// What emitting does to a world whose emitters are the `bodies` of `ids`:
/// nothing that existed changes, and each emitter adds at most one
/// particle, for as long as the world has room.
spec fn emitted(
    before: specs::World,
    after: specs::World,
    ids: Seq<specs::Entity>,
    bodies: Seq<Archetype>,
    spawned: Seq<Emission>,
    ticks: nat,
) -> bool {
    &&& world_ready(after)
    &&& world_doomed(after) == world_doomed(before)
    &&& world_wear(after) == world_wear(before)
    &&& world_order(after).len() == world_order(before).len() + spawned.len()
    &&& spawned.len() > 0 ==> world_order(after).len() <= CAPACITY
    &&& forall|e: specs::Entity|
        exists_in(before, e) ==> exists_in(after, e) && lookup(after, e) == lookup(before, e)
    &&& forall|e: specs::Entity|
        exists_in(after, e) <==> exists_in(before, e) || names_particle(spawned, e)
    &&& exists|places: Seq<int>| traced(before, after, ids, bodies, spawned, places, ticks)
    &&& world_order(after).len() < CAPACITY ==> forall|k: int|
        0 <= k < ids.len() && must_emit(bodies[k], ticks) ==> names_emitter(
            spawned,
            #[trigger] ids[k],
        )
}

/// Ages every entity and marks for deletion those whose lifetime ran out.
/// Returns the entities and what they carried before.
fn retire(world: &mut specs::World, ticks: u32) -> (r: (Vec<specs::Entity>, Vec<Archetype>))
    requires
        world_ready(*old(world)),
    ensures
        r.0@ == world_order(*old(world)),
        r.0@.no_duplicates(),
        r.0@.to_set() == world_contents(*old(world)).dom(),
        r.1@ == snapshot(*old(world)),
        retired(*old(world), *final(world), ticks as nat),
{
    let (ids, before) = capture(world);
    let after = age_bodies(&before, ticks);
    let expired = find_expired(&before, ticks);
    commit(world, &ids, &before, &after);
    delete_listed(world, &ids, &expired);
    let count = ids.len();
    proof {
        assert(snapshot(*world) == after@);
        assert forall|e: specs::Entity|
            world_doomed(*world).contains(e) <==> world_doomed(*old(world)).contains(e) || (
            exists_in(*old(world), e) && expires(lookup(*old(world), e), ticks as nat)) by {
            if exists_in(*old(world), e) && expires(lookup(*old(world), e), ticks as nat) {
                assert(ids@.to_set().contains(e));
                let k = choose|k: int| 0 <= k < ids@.len() && ids@[k] == e;
                assert(k < count);
                assert(before@[k] == lookup(*old(world), ids@[k]));
                assert(expired@.contains(k as usize));
                let j = choose|j: int| 0 <= j < expired@.len() && expired@[j] == k as usize;
                assert(ids@[expired@[j] as int] == e);
                assert(is_listed(ids@, expired@, e));
            }
            if is_listed(ids@, expired@, e) {
                let j = choose|j: int|
                    0 <= j < expired@.len() && #[trigger] ids@[expired@[j] as int] == e;
                let k = expired@[j];
                assert(expired@.contains(k));
                assert(ids@.to_set().contains(ids@[k as int]));
                assert(before@[k as int] == lookup(*old(world), ids@[k as int]));
            }
        }
    }
    (ids, before)
}

/// Lets every emitter among `bodies` spawn, if its draw says so and the
/// world has room.
fn emit(
    world: &mut specs::World,
    ids: &Vec<specs::Entity>,
    bodies: &Vec<Archetype>,
    ticks: u32,
) -> (spawned: Vec<Emission>)
    requires
        world_ready(*old(world)),
        world_wear(*old(world)) < WEAR_LIMIT,
        ids@.len() == bodies@.len(),
        ids@.len() == world_order(*old(world)).len(),
        ids@.no_duplicates(),
    ensures
        emitted(*old(world), *final(world), ids@, bodies@, spawned@, ticks as nat),
{
    let n = ids.len();
    let mut out: Vec<Emission> = Vec::new();
    let ghost mut places: Seq<int> = Seq::empty();
    let mut i: usize = 0;
    while i < n
        invariant
            n == ids@.len(),
            n == bodies@.len(),
            i <= n,
            world_ready(*world),
            world_doomed(*world) == world_doomed(*old(world)),
            world_wear(*world) == world_wear(*old(world)),
            world_wear(*world) < WEAR_LIMIT,
            n == world_order(*old(world)).len(),
            world_order(*world).len() == n + out@.len(),
            out@.len() <= i,
            out@.len() > 0 ==> n + out@.len() <= CAPACITY,
            forall|e: specs::Entity|
                exists_in(*old(world), e) ==> exists_in(*world, e) && lookup(*world, e) == lookup(
                    *old(world),
                    e,
                ),
            forall|e: specs::Entity|
                exists_in(*world, e) <==> exists_in(*old(world), e) || names_particle(out@, e),
            traced(*old(world), *world, ids@, bodies@, out@, places, ticks as nat),
            forall|j: int| 0 <= j < places.len() ==> #[trigger] places[j] < i,
            forall|k: int|
                0 <= k < i && must_emit(bodies@[k], ticks as nat) ==> n + out@.len() >= CAPACITY
                    || names_emitter(out@, #[trigger] ids@[k]),
        decreases n - i,
    {
        let a = bodies[i];
        let ghost here = *world;
        let ghost prev = out@;
        let ghost walked = places;
        let mut fired = false;
        match (a.position, a.emitter) {
            (Some(p), Some(em)) => {
                let roll = random_in(0, ROLL_RANGE);
                let room = n < CAPACITY && out.len() < CAPACITY - n;
                if !should_emit(roll, em.rate, ticks) {
                    assert(!must_emit(a, ticks as nat)) by (nonlinear_arith)
                        requires
                            0 <= roll < ROLL_RANGE,
                            !emits(roll as int, em.rate as int, ticks as nat),
                            a.emitter == Some(em),
                    {
                    }
                } else if room {
                    let vx = random_in(-PARTICLE_SPEED, PARTICLE_SPEED);
                    let vy = random_in(-PARTICLE_SPEED, PARTICLE_SPEED);
                    let particle = spawn(world, make_particle(p, em, vx, vy));
                    out.push(Emission { emitter: ids[i], particle });
                    fired = true;
                    proof {
                        places = places.push(i as int);
                        assert(em.rate * ticks > 0) by (nonlinear_arith)
                            requires
                                0 <= roll,
                                emits(roll as int, em.rate as int, ticks as nat),
                        {
                        }
                        assert(lookup(*world, particle) == spark(p, em, vx, vy));
                        assert(spawned_by(a, lookup(*world, particle)));
                        assert forall|e: specs::Entity|
                            exists_in(*world, e) <==> exists_in(*old(world), e) || names_particle(
                                out@,
                                e,
                            ) by {
                            if names_particle(out@, e) {
                                let j = choose|j: int|
                                    0 <= j < out@.len() && (#[trigger] out@[j]).particle == e;
                                if j < prev.len() {
                                    assert(prev[j].particle == e);
                                    assert(names_particle(prev, e));
                                }
                            }
                            if names_particle(prev, e) {
                                let j = choose|j: int|
                                    0 <= j < prev.len() && (#[trigger] prev[j]).particle == e;
                                assert(out@[j].particle == e);
                            }
                            if e == particle {
                                assert(out@[prev.len() as int].particle == e);
                            }
                        }
                        assert forall|x: int, y: int| 0 <= x < y < out@.len() implies (
                        #[trigger] out@[x]).particle != (#[trigger] out@[y]).particle by {
                            if y < prev.len() {
                                assert(out@[x] == prev[x] && out@[y] == prev[y]);
                            } else {
                                assert(out@[x] == prev[x]);
                                assert(exists_in(here, prev[x].particle));
                            }
                        }
                        assert forall|j: int| 0 <= j < places.len() implies {
                            &&& 0 <= #[trigger] places[j] < ids@.len()
                            &&& ids@[places[j]] == out@[j].emitter
                            &&& may_emit(bodies@[places[j]], ticks as nat)
                            &&& !exists_in(*old(world), out@[j].particle)
                            &&& exists_in(*world, out@[j].particle)
                            &&& spawned_by(bodies@[places[j]], lookup(*world, out@[j].particle))
                        } by {
                            if j < prev.len() {
                                assert(places[j] == walked[j] && out@[j] == prev[j]);
                                assert(exists_in(here, prev[j].particle));
                                assert(lookup(*world, prev[j].particle) == lookup(
                                    here,
                                    prev[j].particle,
                                ));
                            } else {
                                assert(!exists_in(*old(world), particle));
                            }
                        }
                        assert forall|k: int|
                            0 <= k < i + 1 && must_emit(bodies@[k], ticks as nat) implies n
                            + out@.len() >= CAPACITY || names_emitter(
                            out@,
                            #[trigger] ids@[k],
                        ) by {
                            if k < i {
                                if n + prev.len() < CAPACITY {
                                    assert(names_emitter(prev, ids@[k]));
                                    let j = choose|j: int|
                                        0 <= j < prev.len() && (#[trigger] prev[j]).emitter
                                            == ids@[k];
                                    assert(out@[j].emitter == ids@[k]);
                                }
                            } else {
                                assert(out@[prev.len() as int].emitter == ids@[k]);
                            }
                        }
                    }
                }
            },
            _ => {},
        }
        proof {
            if !fired {
                assert(out@ == prev);
            }
        }
        i += 1;
    }
    out
}

proof fn lemma_particle_pass(
    before: specs::World,
    mid: specs::World,
    after: specs::World,
    ids: Seq<specs::Entity>,
    bodies: Seq<Archetype>,
    spawned: Seq<Emission>,
    ticks: nat,
)
    requires
        ids == world_order(before),
        ids.no_duplicates(),
        ids.to_set() == world_contents(before).dom(),
        bodies == snapshot(before),
        retired(before, mid, ticks),
        emitted(mid, after, ids, bodies, spawned, ticks),
    ensures
        particle_pass(before, after, spawned, ticks),
{
    let places = choose|places: Seq<int>| traced(mid, after, ids, bodies, spawned, places, ticks);
    assert forall|e: specs::Entity| exists_in(before, e) implies exists_in(after, e) && lookup(
        after,
        e,
    ) == aged(lookup(before, e), ticks) by {
        assert(exists_in(mid, e));
        assert(ids.to_set().contains(e));
        let k = choose|k: int| 0 <= k < ids.len() && ids[k] == e;
        assert(snapshot(mid)[k] == lookup(mid, ids[k]));
        assert(snapshot(before)[k] == lookup(before, ids[k]));
    }
    assert forall|e: specs::Entity|
        exists_in(after, e) <==> exists_in(before, e) || names_particle(spawned, e) by {
        assert(exists_in(mid, e) == exists_in(before, e));
    }
    assert forall|j: int| 0 <= j < spawned.len() implies emission_holds(
        before,
        after,
        #[trigger] spawned[j],
        ticks,
    ) by {
        let k = places[j];
        assert(ids.to_set().contains(ids[k]));
        assert(snapshot(before)[k] == lookup(before, ids[k]));
        assert(exists_in(mid, spawned[j].particle) == exists_in(before, spawned[j].particle));
    }
    assert(distinct_emissions(spawned)) by {
        assert forall|i: int, j: int| 0 <= i < j < spawned.len() implies (
        #[trigger] spawned[i]).particle != (#[trigger] spawned[j]).particle && spawned[i].emitter
            != spawned[j].emitter by {
            assert(places[i] < places[j]);
        }
    }
    assert(in_emitter_order(ids, spawned)) by {
        assert(places.len() == spawned.len());
        assert forall|j: int| 0 <= j < places.len() implies 0 <= #[trigger] places[j] < ids.len()
            && ids[places[j]] == spawned[j].emitter by {}
    }
    if world_order(after).len() < CAPACITY {
        assert forall|e: specs::Entity|
            exists_in(before, e) && must_emit(lookup(before, e), ticks) implies names_emitter(
            spawned,
            e,
        ) by {
            assert(ids.to_set().contains(e));
            let k = choose|k: int| 0 <= k < ids.len() && ids[k] == e;
            assert(snapshot(before)[k] == lookup(before, ids[k]));
            assert(names_emitter(spawned, ids[k]));
        }
    }
}

impl ParticleSystem {
    /// Runs the lifetime half of the particle pass alone: every entity is
    /// [`aged`] and marked for deletion if its lifetime ran out, and
    /// nothing is spawned.
    pub fn retire(&mut self, world: &mut specs::World, dt: DeltaTime)
        requires
            world_ready(*old(world)),
        ensures
            retired(*old(world), *final(world), dt.0 as nat),
    {
        let _ = retire(world, dt.0);
    }

    /// Runs the particle pass over the world and returns what was spawned:
    /// lifetimes go down first, and the emitters spawn afterwards. No slot
    /// of the world may be worn out.
    pub fn run(&mut self, world: &mut specs::World, dt: DeltaTime) -> (spawned: Vec<Emission>)
        requires
            world_ready(*old(world)),
            world_wear(*old(world)) < WEAR_LIMIT,
        ensures
            particle_pass(*old(world), *final(world), spawned@, dt.0 as nat),
    {
        let (ids, before) = retire(world, dt.0);
        let ghost mid = *world;
        let spawned = emit(world, &ids, &before, dt.0);
        proof {
            lemma_particle_pass(*old(world), mid, *world, ids@, before@, spawned@, dt.0 as nat);
        }
        spawned
    }
}

/// One entity after `passes` particle passes of `ticks` each.
pub open spec fn aged_over(a: Archetype, ticks: nat, passes: nat) -> Archetype
    decreases passes,
{
    if passes == 0 {
        a
    } else {
        aged(aged_over(a, ticks, (passes - 1) as nat), ticks)
    }
}

/// A lifetime runs out on time: after any number of passes the lifetime has
/// gone down by the time that passed, and the next pass deletes the entity
/// exactly if it uses up what is left. So a lifetime of four steps of time
/// ends in the fourth pass and in none before.
pub proof fn lifetime_runs_out_on_time(a: Archetype, ticks: nat, passes: nat)
    requires
        a.lifetime is Some,
        a.lifetime->0.remaining - passes * ticks >= i32::MIN,
    ensures
        aged_over(a, ticks, passes).lifetime is Some,
        aged_over(a, ticks, passes).lifetime->0.remaining == a.lifetime->0.remaining - passes
            * ticks,
        expires(aged_over(a, ticks, passes), ticks) <==> a.lifetime->0.remaining <= (passes + 1)
            * ticks,
    decreases passes,
{
    assert((passes + 1) * ticks == passes * ticks + ticks) by (nonlinear_arith);
    if passes > 0 {
        assert((passes - 1) * ticks == passes * ticks - ticks) by (nonlinear_arith);
        assert((passes - 1) * ticks >= 0) by (nonlinear_arith)
            requires
                passes >= 1,
                ticks >= 0,
        ;
        lifetime_runs_out_on_time(a, ticks, (passes - 1) as nat);
    } else {
        assert(0 * ticks == 0);
    }
}

} // verus!
