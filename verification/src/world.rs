//! The entity-component store: a `specs::World`, seen by the verifier through
//! a model of what it holds.
//!
//! The model has five parts: the bundle of every existing entity, the order
//! in which entities are visited, the entities marked for deletion, how
//! worn the most used slot is, and whether the world has been prepared by
//! [`new_world`].
//!
//! A world has room for [`CAPACITY`] entities at a time, and each of its
//! slots can be freed [`WEAR_LIMIT`] times; `specs` panics beyond either.

use vstd::prelude::*;
use specs::Builder;
use specs::Join;
use specs::WorldExt;
use crate::components::{
    Archetype, Collectible, Collidable, Enemy, Goal, Gravity, Grounded, Health, Lifetime,
    ParticleEmitter, Platform, Player, Position, Renderable, Velocity,
};

verus! {

/// `specs::World`, opaque to the verifier.
#[verifier::external_type_specification]
#[verifier::external_body]
pub struct ExWorld(specs::World);

/// `specs::Entity`, opaque to the verifier: two entities are equal exactly
/// if they have the same index and generation.
#[verifier::external_type_specification]
#[verifier::external_body]
pub struct ExEntity(specs::Entity);

/// `specs::VecStorage`, the store of every component type.
#[verifier::external_type_specification]
#[verifier::external_body]
#[verifier::reject_recursive_types(T)]
pub struct ExVecStorage<T>(specs::VecStorage<T>);

/// The components of every entity that exists in the world, deleted ones
/// included until the next flush.
pub uninterp spec fn world_contents(w: specs::World) -> Map<specs::Entity, Archetype>;

/// The existing entities in the order in which the world hands them out.
pub uninterp spec fn world_order(w: specs::World) -> Seq<specs::Entity>;

/// The entities whose deletion has been requested since the last flush.
pub uninterp spec fn world_doomed(w: specs::World) -> Set<specs::Entity>;

/// How often the most used slot of the world has been freed: a slot is
/// freed when the deletion of the entity it holds is carried out.
pub uninterp spec fn world_wear(w: specs::World) -> nat;

/// Whether the world is in the state this library keeps it in: every
/// component store is registered, components are stored for existing
/// entities only, and nothing is queued in the world besides deletions.
pub uninterp spec fn world_ready(w: specs::World) -> bool;

/// The number of entities a world holds at most. The bit sets of `specs`
/// take indices below `2^20` on 32-bit targets and below `2^24` on 64-bit
/// ones; this is the smaller of the two.
pub const CAPACITY: usize = 0x10_0000;

/// How often one slot can be freed: the generation of the entity in a slot
/// is one more than that, and generations end at `i32::MAX`.
pub const WEAR_LIMIT: u64 = 0x7fff_ffff;

/// Whether `w` can take another entity: it is not full, and none of its
/// slots is worn out.
pub open spec fn has_room(w: specs::World) -> bool {
    world_order(w).len() < CAPACITY && world_wear(w) < WEAR_LIMIT
}

/// Whether `e` exists in `w`.
pub open spec fn exists_in(w: specs::World, e: specs::Entity) -> bool {
    world_contents(w).dom().contains(e)
}

/// What `e` carries in `w`; nothing where it does not exist.
pub open spec fn lookup(w: specs::World, e: specs::Entity) -> Archetype {
    if exists_in(w, e) {
        world_contents(w)[e]
    } else {
        Archetype::vacant()
    }
}

/// `after` is `before` with the bundle of `e` replaced by `a`.
pub open spec fn rewritten(
    before: specs::World,
    after: specs::World,
    e: specs::Entity,
    a: Archetype,
) -> bool {
    &&& world_ready(after)
    &&& world_order(after) == world_order(before)
    &&& world_doomed(after) == world_doomed(before)
    &&& world_wear(after) == world_wear(before)
    &&& world_contents(after) == world_contents(before).insert(e, a)
}

/// A world with every component store registered and no entity in it.
///
/// Trusted: `World::new` followed by `register` for each component type
/// yields a world without entities, pending deletions or queued updates,
/// in which no slot has been used.
#[verifier::external_body]
pub(crate) fn registered_world() -> (w: specs::World)
    ensures
        world_ready(w),
        world_wear(w) == 0,
        world_contents(w) == (Map::<specs::Entity, Archetype>::empty()),
        world_order(w) == (Seq::<specs::Entity>::empty()),
        world_doomed(w) == (Set::<specs::Entity>::empty()),
{
    let mut w = specs::World::new();
    w.register::<Position>(); w.register::<Velocity>(); w.register::<Renderable>();
    w.register::<Collidable>(); w.register::<Player>(); w.register::<Health>();
    w.register::<Lifetime>(); w.register::<ParticleEmitter>(); w.register::<Enemy>();
    w.register::<Platform>(); w.register::<Gravity>(); w.register::<Grounded>();
    w.register::<Collectible>(); w.register::<Goal>();
    w
}

/// The existing entities, each once, in the world's order.
///
/// Trusted: a join over `Entities` yields each existing entity exactly once,
/// those marked for deletion included, and in the same order for as long as
/// no entity is created or removed.
#[verifier::external_body]
pub(crate) fn joined_entities(w: &specs::World) -> (r: Vec<specs::Entity>)
    requires
        world_ready(*w),
    ensures
        r@ == world_order(*w),
        r@.no_duplicates(),
        r@.to_set() == world_contents(*w).dom(),
        world_doomed(*w).subset_of(r@.to_set()),
{
    (&w.entities()).join().collect()
}

/// Trusted: `==` on `Entity` compares index and generation, which is what
/// identifies an entity.
#[verifier::external_body]
pub(crate) fn entity_eq(a: specs::Entity, b: specs::Entity) -> (r: bool)
    ensures
        r == (a == b),
{
    a == b
}

/// Trusted: `Storage::get` returns the component of an existing entity that
/// has one, and `None` for an entity without it or one that does not
/// exist.
#[verifier::external_body]
pub(crate) fn position_of(w: &specs::World, e: specs::Entity) -> (r: Option<Position>)
    requires
        world_ready(*w),
    ensures
        r == lookup(*w, e).position,
{
    w.read_storage::<Position>().get(e).copied()
}

/// Trusted as [`position_of`].
#[verifier::external_body]
pub(crate) fn velocity_of(w: &specs::World, e: specs::Entity) -> (r: Option<Velocity>)
    requires
        world_ready(*w),
    ensures
        r == lookup(*w, e).velocity,
{
    w.read_storage::<Velocity>().get(e).copied()
}

/// Trusted as [`position_of`].
#[verifier::external_body]
pub(crate) fn renderable_of(w: &specs::World, e: specs::Entity) -> (r: Option<Renderable>)
    requires
        world_ready(*w),
    ensures
        r == lookup(*w, e).renderable,
{
    w.read_storage::<Renderable>().get(e).copied()
}

/// Trusted as [`position_of`].
#[verifier::external_body]
pub(crate) fn collidable_of(w: &specs::World, e: specs::Entity) -> (r: Option<Collidable>)
    requires
        world_ready(*w),
    ensures
        r == lookup(*w, e).collidable,
{
    w.read_storage::<Collidable>().get(e).copied()
}

/// Trusted as [`position_of`].
#[verifier::external_body]
pub(crate) fn player_of(w: &specs::World, e: specs::Entity) -> (r: Option<Player>)
    requires
        world_ready(*w),
    ensures
        r == lookup(*w, e).player,
{
    w.read_storage::<Player>().get(e).copied()
}

/// Trusted as [`position_of`].
#[verifier::external_body]
pub(crate) fn health_of(w: &specs::World, e: specs::Entity) -> (r: Option<Health>)
    requires
        world_ready(*w),
    ensures
        r == lookup(*w, e).health,
{
    w.read_storage::<Health>().get(e).copied()
}

/// Trusted as [`position_of`].
#[verifier::external_body]
pub(crate) fn lifetime_of(w: &specs::World, e: specs::Entity) -> (r: Option<Lifetime>)
    requires
        world_ready(*w),
    ensures
        r == lookup(*w, e).lifetime,
{
    w.read_storage::<Lifetime>().get(e).copied()
}

/// Trusted as [`position_of`].
#[verifier::external_body]
pub(crate) fn emitter_of(w: &specs::World, e: specs::Entity) -> (r: Option<ParticleEmitter>)
    requires
        world_ready(*w),
    ensures
        r == lookup(*w, e).emitter,
{
    w.read_storage::<ParticleEmitter>().get(e).copied()
}

/// Trusted: `Storage::contains` tells whether an existing entity has the
/// component, and is `false` for any other entity.
#[verifier::external_body]
pub(crate) fn is_enemy(w: &specs::World, e: specs::Entity) -> (r: bool)
    requires
        world_ready(*w),
    ensures
        r == lookup(*w, e).enemy,
{
    w.read_storage::<Enemy>().contains(e)
}

/// Trusted as [`is_enemy`].
#[verifier::external_body]
pub(crate) fn is_platform(w: &specs::World, e: specs::Entity) -> (r: bool)
    requires
        world_ready(*w),
    ensures
        r == lookup(*w, e).platform,
{
    w.read_storage::<Platform>().contains(e)
}

/// Trusted as [`is_enemy`].
#[verifier::external_body]
pub(crate) fn has_gravity(w: &specs::World, e: specs::Entity) -> (r: bool)
    requires
        world_ready(*w),
    ensures
        r == lookup(*w, e).gravity,
{
    w.read_storage::<Gravity>().contains(e)
}

/// Trusted as [`is_enemy`].
#[verifier::external_body]
pub(crate) fn is_grounded(w: &specs::World, e: specs::Entity) -> (r: bool)
    requires
        world_ready(*w),
    ensures
        r == lookup(*w, e).grounded,
{
    w.read_storage::<Grounded>().contains(e)
}

/// Trusted as [`is_enemy`].
#[verifier::external_body]
pub(crate) fn is_collectible(w: &specs::World, e: specs::Entity) -> (r: bool)
    requires
        world_ready(*w),
    ensures
        r == lookup(*w, e).collectible,
{
    w.read_storage::<Collectible>().contains(e)
}

/// Trusted as [`is_enemy`].
#[verifier::external_body]
pub(crate) fn is_goal(w: &specs::World, e: specs::Entity) -> (r: bool)
    requires
        world_ready(*w),
    ensures
        r == lookup(*w, e).goal,
{
    w.read_storage::<Goal>().contains(e)
}

/// Trusted: `Storage::insert` sets the component of an existing entity and
/// touches nothing else.
#[verifier::external_body]
pub(crate) fn store_position(w: &mut specs::World, e: specs::Entity, c: Position)
    requires
        world_ready(*old(w)),
        exists_in(*old(w), e),
    ensures
        rewritten(*old(w), *final(w), e, (Archetype { position: Some(c), ..lookup(*old(w), e) })),
{
    let _ = w.write_storage::<Position>().insert(e, c);
}

/// Trusted as [`store_position`].
#[verifier::external_body]
pub(crate) fn store_velocity(w: &mut specs::World, e: specs::Entity, c: Velocity)
    requires
        world_ready(*old(w)),
        exists_in(*old(w), e),
    ensures
        rewritten(*old(w), *final(w), e, (Archetype { velocity: Some(c), ..lookup(*old(w), e) })),
{
    let _ = w.write_storage::<Velocity>().insert(e, c);
}

/// Trusted as [`store_position`].
#[verifier::external_body]
pub(crate) fn store_player(w: &mut specs::World, e: specs::Entity, c: Player)
    requires
        world_ready(*old(w)),
        exists_in(*old(w), e),
    ensures
        rewritten(*old(w), *final(w), e, (Archetype { player: Some(c), ..lookup(*old(w), e) })),
{
    let _ = w.write_storage::<Player>().insert(e, c);
}

/// Trusted as [`store_position`].
#[verifier::external_body]
pub(crate) fn store_lifetime(w: &mut specs::World, e: specs::Entity, c: Lifetime)
    requires
        world_ready(*old(w)),
        exists_in(*old(w), e),
    ensures
        rewritten(*old(w), *final(w), e, (Archetype { lifetime: Some(c), ..lookup(*old(w), e) })),
{
    let _ = w.write_storage::<Lifetime>().insert(e, c);
}

/// Trusted as [`store_position`].
#[verifier::external_body]
pub(crate) fn store_grounded(w: &mut specs::World, e: specs::Entity)
    requires
        world_ready(*old(w)),
        exists_in(*old(w), e),
    ensures
        rewritten(*old(w), *final(w), e, (Archetype { grounded: true, ..lookup(*old(w), e) })),
{
    let _ = w.write_storage::<Grounded>().insert(e, Grounded);
}

/// What clearing the grounded tag leaves of a bundle.
pub open spec fn ungrounded(a: Archetype) -> Archetype {
    Archetype { grounded: false, ..a }
}

/// Trusted: `Storage::clear` removes the component from every entity and
/// touches nothing else.
#[verifier::external_body]
pub(crate) fn clear_grounded(w: &mut specs::World)
    requires
        world_ready(*old(w)),
    ensures
        world_ready(*final(w)),
        world_order(*final(w)) == world_order(*old(w)),
        world_doomed(*final(w)) == world_doomed(*old(w)),
        world_wear(*final(w)) == world_wear(*old(w)),
        world_contents(*final(w)) == world_contents(*old(w)).map_values(|a: Archetype| ungrounded(a)),
{
    w.write_storage::<Grounded>().clear();
}

/// Trusted: `create_entity` allocates an entity that did not exist, each
/// `maybe_with` attaches the component it is given, and no other entity
/// changes.
///
/// `create_entity` panics in two cases, which `requires` leaves out. The
/// bit sets take no index from [`CAPACITY`] on: a new index is handed out
/// only when no freed one is left, and is then the number of existing
/// entities. And the generation of a slot cannot pass `i32::MAX`: a slot
/// that has been freed `n` times is given generation `n + 1` next.
#[verifier::external_body]
pub(crate) fn build_entity(w: &mut specs::World, a: Archetype) -> (e: specs::Entity)
    requires
        world_ready(*old(w)),
        world_order(*old(w)).len() < CAPACITY,
        world_wear(*old(w)) < WEAR_LIMIT,
    ensures
        world_ready(*final(w)),
        !exists_in(*old(w), e),
        world_contents(*final(w)) == world_contents(*old(w)).insert(e, a),
        world_order(*final(w)).to_set() == world_order(*old(w)).to_set().insert(e),
        world_order(*final(w)).no_duplicates(),
        world_order(*final(w)).len() == world_order(*old(w)).len() + 1,
        world_doomed(*final(w)) == world_doomed(*old(w)),
        world_wear(*final(w)) == world_wear(*old(w)),
{
    w.create_entity()
        .maybe_with(a.position).maybe_with(a.velocity).maybe_with(a.renderable)
        .maybe_with(a.collidable).maybe_with(a.player).maybe_with(a.health)
        .maybe_with(a.lifetime).maybe_with(a.emitter)
        .maybe_with(a.enemy.then_some(Enemy)).maybe_with(a.platform.then_some(Platform))
        .maybe_with(a.gravity.then_some(Gravity)).maybe_with(a.grounded.then_some(Grounded))
        .maybe_with(a.collectible.then_some(Collectible)).maybe_with(a.goal.then_some(Goal))
        .build()
}

/// Trusted: `Entities::delete` marks an existing entity for deletion and
/// leaves its components readable until the world is maintained.
#[verifier::external_body]
pub(crate) fn mark_deleted(w: &mut specs::World, e: specs::Entity)
    requires
        world_ready(*old(w)),
        exists_in(*old(w), e),
    ensures
        world_ready(*final(w)),
        world_order(*final(w)) == world_order(*old(w)),
        world_contents(*final(w)) == world_contents(*old(w)),
        world_doomed(*final(w)) == world_doomed(*old(w)).insert(e),
        world_wear(*final(w)) == world_wear(*old(w)),
{
    let _ = w.entities().delete(e);
}

/// Trusted: `maintain` removes each entity marked for deletion together with
/// its components, keeps the others as they are and in their order, and
/// leaves no deletion pending. It frees the slot of each entity it removes,
/// once.
#[verifier::external_body]
pub(crate) fn maintain_world(w: &mut specs::World)
    requires
        world_ready(*old(w)),
    ensures
        world_ready(*final(w)),
        world_wear(*old(w)) <= world_wear(*final(w)) <= world_wear(*old(w)) + 1,
        world_contents(*final(w)) == world_contents(*old(w)).remove_keys(world_doomed(*old(w))),
        world_order(*final(w)) == world_order(*old(w)).filter(|e: specs::Entity| !world_doomed(*old(w)).contains(e)),
        world_doomed(*final(w)) == (Set::<specs::Entity>::empty()),
{
    w.maintain();
}

/// Whether `after` holds the same entities as `before`, in the same order
/// and with the same deletions pending.
pub open spec fn same_population(before: specs::World, after: specs::World) -> bool {
    &&& world_ready(after)
    &&& world_order(after) == world_order(before)
    &&& world_doomed(after) == world_doomed(before)
    &&& world_wear(after) == world_wear(before)
    &&& world_contents(after).dom() == world_contents(before).dom()
}

/// Whether `after` is `before` with the pending deletions carried out.
pub open spec fn flushed(before: specs::World, after: specs::World) -> bool {
    &&& world_ready(after)
    &&& world_wear(before) <= world_wear(after) <= world_wear(before) + 1
    &&& world_contents(after) == world_contents(before).remove_keys(world_doomed(before))
    &&& world_order(after) == world_order(before).filter(
        |e: specs::Entity| !world_doomed(before).contains(e),
    )
    &&& world_doomed(after) == Set::<specs::Entity>::empty()
}

/// The bundles of the existing entities, in the world's order.
pub open spec fn snapshot(w: specs::World) -> Seq<Archetype> {
    world_order(w).map_values(|e: specs::Entity| lookup(w, e))
}

/// What may differ between a bundle and the one written over it: position,
/// velocity, player and lifetime may change where they are present
/// afterwards, and the grounded tag may be set.
pub open spec fn writable(before: Archetype, after: Archetype) -> bool {
    &&& after == (Archetype {
        position: after.position,
        velocity: after.velocity,
        player: after.player,
        lifetime: after.lifetime,
        grounded: after.grounded,
        ..before
    })
    &&& after.position is None ==> before.position is None
    &&& after.velocity is None ==> before.velocity is None
    &&& after.player is None ==> before.player is None
    &&& after.lifetime is None ==> before.lifetime is None
    &&& before.grounded ==> after.grounded
}

/// A world that is ready for use and holds no entity.
pub fn new_world() -> (w: specs::World)
    ensures
        world_ready(w),
        world_wear(w) == 0,
        world_contents(w) == Map::<specs::Entity, Archetype>::empty(),
        world_order(w) == Seq::<specs::Entity>::empty(),
        world_doomed(w) == Set::<specs::Entity>::empty(),
        snapshot(w) == Seq::<Archetype>::empty(),
{
    let w = registered_world();
    assert(snapshot(w) =~= Seq::<Archetype>::empty());
    w
}

/// Creates an entity that carries `a`, in a world that has room for it.
pub fn spawn(w: &mut specs::World, a: Archetype) -> (e: specs::Entity)
    requires
        world_ready(*old(w)),
        has_room(*old(w)),
    ensures
        world_ready(*final(w)),
        !exists_in(*old(w), e),
        world_contents(*final(w)) == world_contents(*old(w)).insert(e, a),
        world_order(*final(w)).to_set() == world_order(*old(w)).to_set().insert(e),
        world_order(*final(w)).no_duplicates(),
        world_order(*final(w)).len() == world_order(*old(w)).len() + 1,
        world_doomed(*final(w)) == world_doomed(*old(w)),
        world_wear(*final(w)) == world_wear(*old(w)),
{
    build_entity(w, a)
}

/// The existing entities, each once, in the world's order.
pub fn entities(w: &specs::World) -> (r: Vec<specs::Entity>)
    requires
        world_ready(*w),
    ensures
        r@ == world_order(*w),
        r@.no_duplicates(),
        r@.to_set() == world_contents(*w).dom(),
        world_doomed(*w).subset_of(r@.to_set()),
{
    joined_entities(w)
}

/// Whether `e` exists; an entity whose deletion is pending still does.
pub fn is_live(w: &specs::World, e: specs::Entity) -> (r: bool)
    requires
        world_ready(*w),
    ensures
        r == exists_in(*w, e),
{
    let ids = joined_entities(w);
    let mut i: usize = 0;
    while i < ids.len()
        invariant
            i <= ids.len(),
            ids@.to_set() == world_contents(*w).dom(),
            forall|j: int| 0 <= j < i ==> ids@[j] != e,
        decreases ids.len() - i,
    {
        if entity_eq(ids[i], e) {
            assert(ids@.to_set().contains(ids@[i as int]));
            return true;
        }
        i += 1;
    }
    assert(!ids@.to_set().contains(e));
    false
}

/// Everything `e` carries; the empty bundle where `e` does not exist.
pub fn archetype_of(w: &specs::World, e: specs::Entity) -> (a: Archetype)
    requires
        world_ready(*w),
    ensures
        a == lookup(*w, e),
{
    Archetype {
        position: position_of(w, e),
        velocity: velocity_of(w, e),
        renderable: renderable_of(w, e),
        collidable: collidable_of(w, e),
        player: player_of(w, e),
        health: health_of(w, e),
        lifetime: lifetime_of(w, e),
        emitter: emitter_of(w, e),
        enemy: is_enemy(w, e),
        platform: is_platform(w, e),
        gravity: has_gravity(w, e),
        grounded: is_grounded(w, e),
        collectible: is_collectible(w, e),
        goal: is_goal(w, e),
    }
}

/// The existing entities and what each carries, index by index.
pub fn capture(w: &specs::World) -> (r: (Vec<specs::Entity>, Vec<Archetype>))
    requires
        world_ready(*w),
    ensures
        r.0@ == world_order(*w),
        r.0@.no_duplicates(),
        r.0@.to_set() == world_contents(*w).dom(),
        world_doomed(*w).subset_of(r.0@.to_set()),
        r.1@ == snapshot(*w),
{
    let ids = joined_entities(w);
    let mut bodies: Vec<Archetype> = Vec::new();
    let mut i: usize = 0;
    while i < ids.len()
        invariant
            world_ready(*w),
            i <= ids.len(),
            bodies@.len() == i,
            forall|j: int| 0 <= j < i ==> bodies@[j] == lookup(*w, #[trigger] ids@[j]),
        decreases ids.len() - i,
    {
        let a = archetype_of(w, ids[i]);
        bodies.push(a);
        i += 1;
    }
    assert(bodies@ =~= snapshot(*w));
    (ids, bodies)
}

/// Requests the deletion of `e`; it takes effect at the next [`flush`].
/// Asking again, or for an entity that does not exist, changes nothing.
pub fn delete(w: &mut specs::World, e: specs::Entity)
    requires
        world_ready(*old(w)),
    ensures
        world_ready(*final(w)),
        world_order(*final(w)) == world_order(*old(w)),
        world_contents(*final(w)) == world_contents(*old(w)),
        world_wear(*final(w)) == world_wear(*old(w)),
        world_doomed(*final(w)) == if exists_in(*old(w), e) {
            world_doomed(*old(w)).insert(e)
        } else {
            world_doomed(*old(w))
        },
{
    if is_live(w, e) {
        mark_deleted(w, e);
    }
}

/// Carries out the pending deletions: the entities marked for deletion are
/// gone with all they carried, the others are untouched.
pub fn flush(w: &mut specs::World)
    requires
        world_ready(*old(w)),
    ensures
        flushed(*old(w), *final(w)),
{
    maintain_world(w)
}

/// Writes `after` over the world, entity by entity.
pub(crate) fn commit(
    w: &mut specs::World,
    ids: &Vec<specs::Entity>,
    before: &Vec<Archetype>,
    after: &Vec<Archetype>,
)
    requires
        world_ready(*old(w)),
        ids@ == world_order(*old(w)),
        ids@.no_duplicates(),
        ids@.to_set() == world_contents(*old(w)).dom(),
        before@ == snapshot(*old(w)),
        after@.len() == before@.len(),
        forall|i: int| 0 <= i < before@.len() ==> writable(#[trigger] before@[i], after@[i]),
    ensures
        same_population(*old(w), *final(w)),
        snapshot(*final(w)) == after@,
{
    let n = ids.len();
    let mut i: usize = 0;
    while i < n
        invariant
            n == ids@.len(),
            i <= n,
            world_ready(*w),
            ids@ == world_order(*old(w)),
            ids@.no_duplicates(),
            ids@.to_set() == world_contents(*old(w)).dom(),
            before@ == snapshot(*old(w)),
            after@.len() == before@.len(),
            before@.len() == n,
            forall|k: int| 0 <= k < before@.len() ==> writable(#[trigger] before@[k], after@[k]),
            world_order(*w) == world_order(*old(w)),
            world_doomed(*w) == world_doomed(*old(w)),
            world_wear(*w) == world_wear(*old(w)),
            world_contents(*w).dom() == world_contents(*old(w)).dom(),
            forall|k: int| 0 <= k < i ==> lookup(*w, #[trigger] ids@[k]) == after@[k],
            forall|k: int| i <= k < n ==> lookup(*w, #[trigger] ids@[k]) == before@[k],
        decreases n - i,
    {
        let e = ids[i];
        let a = after[i];
        let ghost start = *w;
        assert(ids@.to_set().contains(ids@[i as int]));
        assert(writable(before@[i as int], after@[i as int]));
        assert(lookup(*w, e) == before@[i as int]);
        if let Some(p) = a.position {
            store_position(w, e, p);
        }
        if let Some(v) = a.velocity {
            store_velocity(w, e, v);
        }
        if let Some(p) = a.player {
            store_player(w, e, p);
        }
        if let Some(l) = a.lifetime {
            store_lifetime(w, e, l);
        }
        if a.grounded {
            store_grounded(w, e);
        }
        assert(lookup(*w, e) == a);
        assert(forall|k: int| 0 <= k < n && k != i ==> lookup(*w, #[trigger] ids@[k]) == lookup(start, ids@[k]));
        i += 1;
    }
    assert(snapshot(*w) =~= after@);
}

/// Whether `e` is one of the entities of `ids` that `listed` names by index.
pub open spec fn is_listed(ids: Seq<specs::Entity>, listed: Seq<usize>, e: specs::Entity) -> bool {
    exists|j: int| 0 <= j < listed.len() && #[trigger] ids[listed[j] as int] == e
}

/// The entities of `ids` that `listed` names by index.
pub open spec fn listed_entities(ids: Seq<specs::Entity>, listed: Seq<usize>) -> Set<
    specs::Entity,
> {
    Set::new(|e: specs::Entity| is_listed(ids, listed, e))
}

/// The pairs of entities of `ids` that `pairs` names by index.
pub open spec fn named_pairs(ids: Seq<specs::Entity>, pairs: Seq<(usize, usize)>) -> Seq<
    (specs::Entity, specs::Entity),
> {
    pairs.map_values(|pair: (usize, usize)| (ids[pair.0 as int], ids[pair.1 as int]))
}

/// The pairs of entities that `pairs` names by index.
pub(crate) fn name_pairs(ids: &Vec<specs::Entity>, pairs: &Vec<(usize, usize)>) -> (r: Vec<
    (specs::Entity, specs::Entity),
>)
    requires
        forall|j: int|
            0 <= j < pairs@.len() ==> (#[trigger] pairs@[j]).0 < ids@.len() && pairs@[j].1
                < ids@.len(),
    ensures
        r@ == named_pairs(ids@, pairs@),
{
    let mut out: Vec<(specs::Entity, specs::Entity)> = Vec::new();
    let mut k: usize = 0;
    while k < pairs.len()
        invariant
            k <= pairs@.len(),
            out@.len() == k,
            forall|j: int|
                0 <= j < pairs@.len() ==> (#[trigger] pairs@[j]).0 < ids@.len() && pairs@[j].1
                    < ids@.len(),
            forall|j: int|
                0 <= j < k ==> (#[trigger] out@[j]) == (
                    ids@[pairs@[j].0 as int],
                    ids@[pairs@[j].1 as int],
                ),
        decreases pairs.len() - k,
    {
        let (a, b) = pairs[k];
        assert(pairs@[k as int].0 < ids@.len() && pairs@[k as int].1 < ids@.len());
        out.push((ids[a], ids[b]));
        k += 1;
    }
    assert(out@ =~= named_pairs(ids@, pairs@));
    out
}

/// Requests the deletion of every entity of `ids` that `listed` names.
pub(crate) fn delete_listed(w: &mut specs::World, ids: &Vec<specs::Entity>, listed: &Vec<usize>)
    requires
        world_ready(*old(w)),
        ids@.to_set() == world_contents(*old(w)).dom(),
        forall|j: int| 0 <= j < listed@.len() ==> (#[trigger] listed@[j]) < ids@.len(),
    ensures
        world_ready(*final(w)),
        world_order(*final(w)) == world_order(*old(w)),
        world_contents(*final(w)) == world_contents(*old(w)),
        world_wear(*final(w)) == world_wear(*old(w)),
        world_doomed(*final(w)) == world_doomed(*old(w)).union(listed_entities(ids@, listed@)),
{
    let n = listed.len();
    let mut i: usize = 0;
    while i < n
        invariant
            n == listed@.len(),
            i <= n,
            world_ready(*w),
            world_order(*w) == world_order(*old(w)),
            world_contents(*w) == world_contents(*old(w)),
            world_wear(*w) == world_wear(*old(w)),
            ids@.to_set() == world_contents(*old(w)).dom(),
            forall|j: int| 0 <= j < listed@.len() ==> (#[trigger] listed@[j]) < ids@.len(),
            forall|e: specs::Entity|
                world_doomed(*w).contains(e) <==> world_doomed(*old(w)).contains(e) || is_listed(
                    ids@,
                    listed@.take(i as int),
                    e,
                ),
        decreases n - i,
    {
        let c = listed[i];
        assert(listed@[i as int] < ids@.len());
        assert(ids@.to_set().contains(ids@[c as int]));
        let ghost prior = world_doomed(*w);
        let ghost done = listed@.take(i as int);
        let ghost next = listed@.take(i + 1);
        delete(w, ids[c]);
        assert forall|e: specs::Entity|
            world_doomed(*w).contains(e) <==> world_doomed(*old(w)).contains(e) || is_listed(
                ids@,
                next,
                e,
            ) by {
            if is_listed(ids@, done, e) {
                let j = choose|j: int| 0 <= j < done.len() && #[trigger] ids@[done[j] as int] == e;
                assert(ids@[next[j] as int] == e);
            }
            if is_listed(ids@, next, e) {
                let j = choose|j: int| 0 <= j < next.len() && #[trigger] ids@[next[j] as int] == e;
                if j < i {
                    assert(ids@[done[j] as int] == e);
                }
            }
            if e == ids@[c as int] {
                assert(ids@[next[i as int] as int] == e);
            }
        }
        i += 1;
    }
    assert(listed@.take(n as int) =~= listed@);
    assert(world_doomed(*w) =~= world_doomed(*old(w)).union(listed_entities(ids@, listed@)));
}

} // verus!
