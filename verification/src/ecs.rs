//! The player rows of the game world, held in a `hecs` entity-component store.
//!
//! Every entity that this library spawns carries exactly two components: the
//! player's id (`String`) and its [`Player`] record. An entity is referred to by
//! the 64 bits of `hecs::Entity::to_bits`, which `hecs::Entity::from_bits`
//! turns back into the same entity.
use crate::game_state::Player;
use hecs::{Entity, World};
use vstd::prelude::*;

verus! {

#[verifier::external_type_specification]
#[verifier::external_body]
pub struct ExWorld(World);

/// The rows a `hecs::World` holds: each live entity that carries a `String` and a
/// `Player` component, keyed by its `to_bits` value, mapped to those two components.
pub uninterp spec fn world_rows(world: World) -> Map<u64, (Seq<char>, Player)>;

/// The keys of the rows of a `hecs::World` in the order in which a query
/// yields them: archetype by archetype, in the order the archetypes were
/// made, and within an archetype in the order of its storage.
pub uninterp spec fn world_order(world: World) -> Seq<u64>;

/// `hecs::World::new`: a world with no entities.
#[verifier::external_body]
pub(crate) fn world_new() -> (created: World)
    ensures
        world_rows(created).is_empty(),
        world_order(created).len() == 0,
{
    World::new()
}

/// `hecs::World::spawn` with the bundle `(player_id, player)`: the new entity is
/// none of the live ones, and it holds the two components. Its storage is
/// appended to the storage of its archetype (or to a new archetype after all
/// others), so the other rows keep their order and the new one stands somewhere
/// among them.
#[verifier::external_body]
pub(crate) fn world_spawn(world: &mut World, player_id: String, player: Player) -> (key: u64)
    ensures
        !world_rows(*old(world)).contains_key(key),
        !world_order(*old(world)).contains(key),
        world_rows(*final(world)) == world_rows(*old(world)).insert(key, (player_id@, player)),
        exists|j: int|
            0 <= j <= world_order(*old(world)).len() && world_order(*final(world)) == world_order(
                *old(world),
            ).insert(j, key),
{
    world.spawn((player_id, player)).to_bits().get()
}

/// `hecs::World::despawn`: succeeds on every live entity, so on every row, and
/// removes the entity with its components. (It also succeeds on a live entity
/// that is no row; the rows then stay as they were.)
#[verifier::external_body]
pub(crate) fn world_despawn(world: &mut World, key: u64) -> (removed: bool)
    ensures
        world_rows(*old(world)).contains_key(key) ==> removed,
        world_rows(*final(world)) == world_rows(*old(world)).remove(key),
{
    match Entity::from_bits(key) {
        Some(entity) => world.despawn(entity).is_ok(),
        None => false,
    }
}

/// `hecs::World::get::<&Player>`: the player record of a row.
#[verifier::external_body]
pub(crate) fn world_player(world: &World, key: u64) -> (player: Option<Player>)
    requires
        world_rows(*world).contains_key(key),
    ensures
        player == Some(world_rows(*world)[key].1),
{
    match Entity::from_bits(key) {
        Some(entity) => world.get::<&Player>(entity).ok().as_deref().copied(),
        None => None,
    }
}

/// `hecs::World::insert_one` with a `Player`: on a row, which is a live entity
/// that has a `Player`, it succeeds and replaces that record in place, so the
/// entity stays in its archetype and the order of the rows is kept.
#[verifier::external_body]
pub(crate) fn world_set_player(world: &mut World, key: u64, player: Player) -> (updated: bool)
    requires
        world_rows(*old(world)).contains_key(key),
    ensures
        updated,
        world_order(*final(world)) == world_order(*old(world)),
        world_rows(*final(world)) == world_rows(*old(world)).insert(key, (world_rows(*old(world))[key].0, player)),
{
    match Entity::from_bits(key) {
        Some(entity) => world.insert_one(entity, player).is_ok(),
        None => false,
    }
}

/// `hecs::World::query::<(Entity, &String, &Player)>`: every row of the world
/// exactly once, in the order that the store yields them.
#[verifier::external_body]
pub(crate) fn world_snapshot(world: &World) -> (rows: Vec<(u64, String, Player)>)
    ensures
        rows@.map_values(|r: (u64, String, Player)| r.0) == world_order(*world),
        forall|i: int|
            0 <= i < rows@.len() ==> world_rows(*world).contains_key(#[trigger] rows@[i].0)
                && world_rows(*world)[rows@[i].0] == (rows@[i].1@, rows@[i].2),
        forall|k: u64|
            world_rows(*world).contains_key(k) ==> exists|i: int|
                0 <= i < rows@.len() && #[trigger] rows@[i].0 == k,
        forall|i: int, j: int|
            0 <= i < rows@.len() && 0 <= j < rows@.len() && i != j ==> #[trigger] rows@[i].0
                != #[trigger] rows@[j].0,
{
    world.query::<(Entity, &String, &Player)>().iter().map(
        |(entity, player_id, player)| (entity.to_bits().get(), player_id.clone(), *player),
    ).collect()
}

} // verus!
