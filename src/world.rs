//! The entity store: a `hecs::World`, seen through the components that the
//! game logic reads and writes.

use vstd::prelude::*;
use hecs::{Entity, World};
use crate::ai::{Ai, Vision};
use crate::input::{InputState, Player};
use crate::models::{Position, Renderable};
use crate::error::{DRResult, ErrorView, missing_entity};
use crate::stats::Health;

verus! {

#[verifier::external_type_specification]
#[verifier::external_body]
pub struct ExEntity(hecs::Entity);

#[verifier::external_type_specification]
#[verifier::external_body]
pub struct ExWorld(hecs::World);

/// The entities alive in a world.
pub uninterp spec fn live_entities(w: World) -> Set<Entity>;

/// The `Position` component of each entity that has one.
pub uninterp spec fn positions_of(w: World) -> Map<Entity, Position>;

/// The `Health` component of each entity that has one.
pub uninterp spec fn healths_of(w: World) -> Map<Entity, Health>;

/// The `Ai` component of each entity that has one.
pub uninterp spec fn ais_of(w: World) -> Map<Entity, Ai>;

/// The `Vision` component of each entity that has one.
pub uninterp spec fn visions_of(w: World) -> Map<Entity, Vision>;

/// The `InputState` component of each entity that has one.
pub uninterp spec fn input_states_of(w: World) -> Map<Entity, InputState>;

/// The entities that carry the `Player` marker.
pub uninterp spec fn players_of(w: World) -> Set<Entity>;

/// What the logic sees of a world.
pub struct WorldModel {
    pub live: Set<Entity>,
    pub positions: Map<Entity, Position>,
    pub healths: Map<Entity, Health>,
    pub ais: Map<Entity, Ai>,
    pub visions: Map<Entity, Vision>,
    pub input_states: Map<Entity, InputState>,
    pub players: Set<Entity>,
}

/// The model of a world.
pub open spec fn model(w: World) -> WorldModel {
    WorldModel {
        live: live_entities(w),
        positions: positions_of(w),
        healths: healths_of(w),
        ais: ais_of(w),
        visions: visions_of(w),
        input_states: input_states_of(w),
        players: players_of(w),
    }
}

impl WorldModel {
    /// The model with `e` and all its components gone.
    pub open spec fn without(self, e: Entity) -> WorldModel {
        WorldModel {
            live: self.live.remove(e),
            positions: self.positions.remove(e),
            healths: self.healths.remove(e),
            ais: self.ais.remove(e),
            visions: self.visions.remove(e),
            input_states: self.input_states.remove(e),
            players: self.players.remove(e),
        }
    }

    /// The model with the position of `e` set to `p`.
    pub open spec fn with_position(self, e: Entity, p: Position) -> WorldModel {
        WorldModel { positions: self.positions.insert(e, p), ..self }
    }

    /// The model with the health of `e` set to `h`.
    pub open spec fn with_health(self, e: Entity, h: Health) -> WorldModel {
        WorldModel { healths: self.healths.insert(e, h), ..self }
    }

    /// The model with the AI state of `e` set to `a`.
    pub open spec fn with_ai(self, e: Entity, a: Ai) -> WorldModel {
        WorldModel { ais: self.ais.insert(e, a), ..self }
    }

    /// The model with the input state of `e` set to `s`.
    pub open spec fn with_input_state(self, e: Entity, s: InputState) -> WorldModel {
        WorldModel { input_states: self.input_states.insert(e, s), ..self }
    }

    /// The entities that carry everything the AI reads and writes.
    pub open spec fn is_ai_entity(self, e: Entity) -> bool {
        &&& self.ais.contains_key(e)
        &&& self.positions.contains_key(e)
        &&& self.healths.contains_key(e)
        &&& self.visions.contains_key(e)
    }
}

/// Whether `v` lists each key of `m` exactly once, with its value.
pub open spec fn lists_exactly<V>(v: Seq<(Entity, V)>, m: Map<Entity, V>) -> bool {
    &&& forall|i: int| 0 <= i < v.len() ==> #[trigger] m.contains_key(v[i].0) && m[v[i].0] == v[i].1
    &&& forall|e: Entity| m.contains_key(e) ==> exists|i: int| 0 <= i < v.len() && #[trigger] v[i].0 == e
    &&& forall|i: int, j: int| 0 <= i < v.len() && 0 <= j < v.len() && i != j ==> v[i].0 != v[j].0
}

/// Relies on `hecs::World::spawn`: the new entity was not alive before, and
/// it holds exactly the components handed over.
#[verifier::external_body]
pub(crate) fn spawn_goblin_entity(
    w: &mut World,
    ai: Ai,
    pos: Position,
    health: Health,
    vision: Vision,
    renderable: Renderable,
) -> (r: Entity)
    ensures
        !live_entities(*old(w)).contains(r),
        live_entities(*final(w)) == live_entities(*old(w)).insert(r),
        positions_of(*final(w)) == positions_of(*old(w)).insert(r, pos),
        healths_of(*final(w)) == healths_of(*old(w)).insert(r, health),
        ais_of(*final(w)) == ais_of(*old(w)).insert(r, ai),
        visions_of(*final(w)) == visions_of(*old(w)).insert(r, vision),
        input_states_of(*final(w)) == input_states_of(*old(w)).remove(r),
        players_of(*final(w)) == players_of(*old(w)).remove(r),
{
    w.spawn((ai, pos, health, vision, renderable))
}

/// Relies on `hecs::World::spawn`: the new entity was not alive before, and
/// it holds exactly the components handed over.
#[verifier::external_body]
pub(crate) fn spawn_player_entity(
    w: &mut World,
    pos: Position,
    renderable: Renderable,
    health: Health,
    input_state: InputState,
) -> (r: Entity)
    ensures
        !live_entities(*old(w)).contains(r),
        live_entities(*final(w)) == live_entities(*old(w)).insert(r),
        positions_of(*final(w)) == positions_of(*old(w)).insert(r, pos),
        healths_of(*final(w)) == healths_of(*old(w)).insert(r, health),
        ais_of(*final(w)) == ais_of(*old(w)).remove(r),
        visions_of(*final(w)) == visions_of(*old(w)).remove(r),
        input_states_of(*final(w)) == input_states_of(*old(w)).insert(r, input_state),
        players_of(*final(w)) == players_of(*old(w)).insert(r),
{
    w.spawn((Player, pos, renderable, health, input_state))
}

/// Relies on `hecs::World::despawn`: it fails exactly when the entity is not
/// alive, and otherwise removes the entity with all its components.
#[verifier::external_body]
pub(crate) fn despawn_entity(w: &mut World, e: Entity) -> (r: bool)
    ensures
        r == model(*old(w)).live.contains(e),
        model(*final(w)) == if r {
            model(*old(w)).without(e)
        } else {
            model(*old(w))
        },
{
    w.despawn(e).is_ok()
}

/// Relies on `hecs::World::contains`: whether the entity is alive.
#[verifier::external_body]
pub(crate) fn is_alive(w: &World, e: Entity) -> (r: bool)
    ensures
        r == model(*w).live.contains(e),
{
    w.contains(e)
}

/// Relies on `hecs::World::get`: the entity's position, if it is alive and
/// has one.
#[verifier::external_body]
pub(crate) fn position_of(w: &World, e: Entity) -> (r: Option<Position>)
    ensures
        r is Some <==> model(*w).positions.contains_key(e),
        r matches Some(p) ==> p == model(*w).positions[e],
{
    w.get::<&Position>(e).ok().map(|p| *p)
}

/// Relies on `hecs::World::get`: the entity's health, if it is alive and has
/// one.
#[verifier::external_body]
pub(crate) fn health_of(w: &World, e: Entity) -> (r: Option<Health>)
    ensures
        r is Some <==> model(*w).healths.contains_key(e),
        r matches Some(h) ==> h == model(*w).healths[e],
{
    w.get::<&Health>(e).ok().map(|h| *h)
}

/// Relies on `hecs::World::get`: the entity's input state, if it is alive and
/// has one.
#[verifier::external_body]
pub(crate) fn input_state_of(w: &World, e: Entity) -> (r: Option<InputState>)
    ensures
        r is Some <==> model(*w).input_states.contains_key(e),
        r matches Some(s) ==> s == model(*w).input_states[e],
{
    w.get::<&InputState>(e).ok().map(|s| *s)
}

/// Relies on `hecs::World::get` with a unique borrow: overwrites the entity's
/// position where it has one, and reports whether it did.
#[verifier::external_body]
pub(crate) fn set_position(w: &mut World, e: Entity, p: Position) -> (r: bool)
    ensures
        r == model(*old(w)).positions.contains_key(e),
        model(*final(w)) == if r {
            model(*old(w)).with_position(e, p)
        } else {
            model(*old(w))
        },
{
    match w.get::<&mut Position>(e) {
        Ok(mut c) => {
            *c = p;
            true
        },
        Err(_) => false,
    }
}

/// Relies on `hecs::World::get` with a unique borrow: overwrites the entity's
/// health where it has one, and reports whether it did.
#[verifier::external_body]
pub(crate) fn set_health(w: &mut World, e: Entity, h: Health) -> (r: bool)
    ensures
        r == model(*old(w)).healths.contains_key(e),
        model(*final(w)) == if r {
            model(*old(w)).with_health(e, h)
        } else {
            model(*old(w))
        },
{
    match w.get::<&mut Health>(e) {
        Ok(mut c) => {
            *c = h;
            true
        },
        Err(_) => false,
    }
}

/// Relies on `hecs::World::get` with a unique borrow: overwrites the entity's
/// AI state where it has one, and reports whether it did.
#[verifier::external_body]
pub(crate) fn set_ai(w: &mut World, e: Entity, a: Ai) -> (r: bool)
    ensures
        r == model(*old(w)).ais.contains_key(e),
        model(*final(w)) == if r {
            model(*old(w)).with_ai(e, a)
        } else {
            model(*old(w))
        },
{
    match w.get::<&mut Ai>(e) {
        Ok(mut c) => {
            *c = a;
            true
        },
        Err(_) => false,
    }
}

/// Relies on `hecs::World::get` with a unique borrow: overwrites the entity's
/// input state where it has one, and reports whether it did.
#[verifier::external_body]
pub(crate) fn set_input_state(w: &mut World, e: Entity, s: InputState) -> (r: bool)
    ensures
        r == model(*old(w)).input_states.contains_key(e),
        model(*final(w)) == if r {
            model(*old(w)).with_input_state(e, s)
        } else {
            model(*old(w))
        },
{
    match w.get::<&mut InputState>(e) {
        Ok(mut c) => {
            *c = s;
            true
        },
        Err(_) => false,
    }
}

/// Relies on `hecs::World::query` over `(Entity, &Position)`: each entity
/// with a position comes once, in an order that hecs leaves open.
#[verifier::external_body]
pub(crate) fn all_positions(w: &World) -> (r: Vec<(Entity, Position)>)
    ensures
        lists_exactly(r@, model(*w).positions),
{
    w.query::<(Entity, &Position)>().iter().map(|(e, p)| (e, *p)).collect()
}

/// Relies on `hecs::World::query` over `(Entity, &Health)`: each entity with
/// a health comes once, in an order that hecs leaves open.
#[verifier::external_body]
pub(crate) fn all_healths(w: &World) -> (r: Vec<(Entity, Health)>)
    ensures
        lists_exactly(r@, model(*w).healths),
{
    w.query::<(Entity, &Health)>().iter().map(|(e, h)| (e, *h)).collect()
}

/// Relies on `hecs::World::query` over `(Entity, &Ai, &Position, &Health,
/// &Vision)`: each entity with all four comes once, with their values, in an
/// order that hecs leaves open.
#[verifier::external_body]
pub(crate) fn ai_entities(w: &World) -> (r: Vec<(Entity, Ai, Position, Health, Vision)>)
    ensures
        forall|i: int| 0 <= i < r@.len() ==> {
            let (e, a, p, h, v) = #[trigger] r@[i];
            &&& model(*w).is_ai_entity(e)
            &&& model(*w).ais[e] == a
            &&& model(*w).positions[e] == p
            &&& model(*w).healths[e] == h
            &&& model(*w).visions[e] == v
        },
        forall|e: Entity| model(*w).is_ai_entity(e) ==> exists|i: int| 0 <= i < r@.len() && #[trigger] r@[i].0 == e,
        forall|i: int, j: int| 0 <= i < r@.len() && 0 <= j < r@.len() && i != j ==> r@[i].0 != r@[j].0,
{
    w.query::<(Entity, &Ai, &Position, &Health, &Vision)>()
        .iter()
        .map(|(e, a, p, h, v)| (e, *a, *p, *h, *v))
        .collect()
}

/// Relies on `hecs::World::query_mut` over `(Entity, &InputState)`: the
/// first entity yielded, if there is any; which one hecs yields first is left
/// open. The unique borrow of the world rules out any live component borrow,
/// and the world is left as it was.
#[verifier::external_body]
pub(crate) fn any_input_state_entity(w: &mut World) -> (r: Option<Entity>)
    ensures
        model(*final(w)) == model(*old(w)),
        r is Some <==> !model(*old(w)).input_states.is_empty(),
        r matches Some(e) ==> model(*old(w)).input_states.contains_key(e),
{
    w.query_mut::<(Entity, &InputState)>().into_iter().next().map(|(e, _)| e)
}

/// Relies on `hecs::World::query_mut` over `(Entity, &Player)`: the first
/// entity yielded, if there is any; which one hecs yields first is left open.
/// The unique borrow of the world rules out any live component borrow, and
/// the world is left as it was.
#[verifier::external_body]
pub(crate) fn any_player_entity(w: &mut World) -> (r: Option<Entity>)
    ensures
        model(*final(w)) == model(*old(w)),
        r is Some <==> !model(*old(w)).players.is_empty(),
        r matches Some(e) ==> model(*old(w)).players.contains(e),
{
    w.query_mut::<(Entity, &Player)>().into_iter().next().map(|(e, _)| e)
}

/// Removes `e` and all its components; fails when `e` is not alive.
pub fn despawn(world: &mut World, e: Entity) -> (r: DRResult<()>)
    ensures
        r is Ok <==> model(*old(world)).live.contains(e),
        r matches Err(err) ==> err@ == ErrorView::MissingEntity("no such entity"@),
        model(*final(world)) == if r is Ok {
            model(*old(world)).without(e)
        } else {
            model(*old(world))
        },
{
    if despawn_entity(world, e) {
        Ok(())
    } else {
        Err(missing_entity("no such entity"))
    }
}

/// `m` after despawning each entity of `ids`, in order.
pub open spec fn despawn_each(m: WorldModel, ids: Seq<Entity>) -> WorldModel
    decreases ids.len(),
{
    if ids.len() == 0 {
        m
    } else {
        despawn_each(m, ids.drop_last()).without(ids.last())
    }
}

/// Spawning fresh entities and then despawning each of them leaves exactly
/// the entities that lived before, and no component of a despawned entity is
/// left for a query to find.
pub proof fn lemma_spawn_then_despawn(before: Set<Entity>, m: WorldModel, ids: Seq<Entity>)
    requires
        forall|i: int| 0 <= i < ids.len() ==> !before.contains(#[trigger] ids[i]),
        m.live == before + ids.to_set(),
    ensures
        despawn_each(m, ids).live == before,
        forall|i: int| 0 <= i < ids.len() ==> {
            let d = despawn_each(m, ids);
            &&& !d.positions.contains_key(#[trigger] ids[i])
            &&& !d.healths.contains_key(ids[i])
            &&& !d.ais.contains_key(ids[i])
            &&& !d.visions.contains_key(ids[i])
            &&& !d.input_states.contains_key(ids[i])
            &&& !d.players.contains(ids[i])
        },
{
    lemma_despawn_each(m, ids);
    assert(despawn_each(m, ids).live =~= before) by {
        assert forall|e: Entity| #[trigger] despawn_each(m, ids).live.contains(e) <==> before.contains(e) by {
            if ids.to_set().contains(e) {
                let i = choose|i: int| 0 <= i < ids.len() && ids[i] == e;
                assert(!before.contains(ids[i]));
            }
        }
    }
}

/// What despawning each entity of `ids` leaves: the live set without them,
/// and no component of theirs.
proof fn lemma_despawn_each(m: WorldModel, ids: Seq<Entity>)
    ensures
        despawn_each(m, ids).live == m.live.difference(ids.to_set()),
        forall|i: int| 0 <= i < ids.len() ==> {
            let d = despawn_each(m, ids);
            &&& !d.positions.contains_key(#[trigger] ids[i])
            &&& !d.healths.contains_key(ids[i])
            &&& !d.ais.contains_key(ids[i])
            &&& !d.visions.contains_key(ids[i])
            &&& !d.input_states.contains_key(ids[i])
            &&& !d.players.contains(ids[i])
        },
    decreases ids.len(),
{
    if ids.len() == 0 {
        assert(m.live.difference(ids.to_set()) =~= m.live);
    } else {
        let rest = ids.drop_last();
        let last = ids.last();
        lemma_despawn_each(m, rest);
        rest.lemma_push_to_set_commute(last);
        assert(ids == rest.push(last));
        assert(despawn_each(m, ids).live =~= m.live.difference(ids.to_set()));
        assert forall|i: int| 0 <= i < ids.len() implies {
            let d = despawn_each(m, ids);
            &&& !d.positions.contains_key(#[trigger] ids[i])
            &&& !d.healths.contains_key(ids[i])
            &&& !d.ais.contains_key(ids[i])
            &&& !d.visions.contains_key(ids[i])
            &&& !d.input_states.contains_key(ids[i])
            &&& !d.players.contains(ids[i])
        } by {
            if i < ids.len() - 1 {
                assert(ids[i] == rest[i]);
            }
        }
    }
}

} // verus!
