//! Spawning the player and waves of goblins.

use vstd::prelude::*;
use hecs::{Entity, World};
use crate::ai::{Ai, AiState, Vision};
use crate::input::InputState;
use crate::models::{CONSOLE_HEIGHT, CONSOLE_WIDTH, Position, Renderable};
use crate::stats::Health;
use crate::world::{
    WorldModel,
    model,
    spawn_goblin_entity,
    spawn_player_entity,
};

verus! {

/// How far a goblin sees.
pub const GOBLIN_VIEW_RANGE: usize = 6;

/// Hit points the player starts with.
pub const PLAYER_HEALTH: u32 = 15;

/// Relies on `rand::random::<u32>`: a uniformly drawn `u32`, of which nothing
/// is promised.
#[verifier::external_body]
fn random_u32() -> (r: u32) {
    rand::random::<u32>()
}

/// Whether `e` is, in `m`, a fresh goblin: idle, seeing `GOBLIN_VIEW_RANGE`
/// far, at full health drawn from `[min_health, max_health)`, standing in
/// `[1, map_width] × [1, map_height]`, and neither player nor input holder.
pub open spec fn is_new_goblin(
    m: WorldModel,
    e: Entity,
    health_range: (u32, u32),
    map_size: (usize, usize),
) -> bool {
    &&& m.live.contains(e)
    &&& m.ais.contains_key(e) && m.ais[e].curr_state == AiState::Idling
    &&& m.visions.contains_key(e) && m.visions[e].view_range == GOBLIN_VIEW_RANGE
    &&& m.healths.contains_key(e)
    &&& m.healths[e].current_health == m.healths[e].total_health
    &&& health_range.0 <= m.healths[e].total_health < health_range.1
    &&& m.positions.contains_key(e)
    &&& 1 <= m.positions[e].x <= map_size.0
    &&& 1 <= m.positions[e].y <= map_size.1
    &&& !m.input_states.contains_key(e)
    &&& !m.players.contains(e)
}

/// Whether `m1` and `m2` agree on everything about `e`.
pub open spec fn same_at(m1: WorldModel, m2: WorldModel, e: Entity) -> bool {
    &&& m1.live.contains(e) == m2.live.contains(e)
    &&& m1.positions.contains_key(e) == m2.positions.contains_key(e)
    &&& m1.positions.contains_key(e) ==> m1.positions[e] == m2.positions[e]
    &&& m1.healths.contains_key(e) == m2.healths.contains_key(e)
    &&& m1.healths.contains_key(e) ==> m1.healths[e] == m2.healths[e]
    &&& m1.ais.contains_key(e) == m2.ais.contains_key(e)
    &&& m1.ais.contains_key(e) ==> m1.ais[e] == m2.ais[e]
    &&& m1.visions.contains_key(e) == m2.visions.contains_key(e)
    &&& m1.visions.contains_key(e) ==> m1.visions[e] == m2.visions[e]
    &&& m1.input_states.contains_key(e) == m2.input_states.contains_key(e)
    &&& m1.input_states.contains_key(e) ==> m1.input_states[e] == m2.input_states[e]
    &&& m1.players.contains(e) == m2.players.contains(e)
}

/// Where a goblin stands and how much health it has, from three random draws:
/// the cell `(rx mod map_width + 1, ry mod map_height + 1)` and the health
/// `rh mod (max_health - min_health) + min_health`, at full.
pub fn goblin_from_draws(
    rx: u32,
    ry: u32,
    rh: u32,
    health_range: (u32, u32),
    map_size: (usize, usize),
) -> (r: (Position, Health))
    requires
        health_range.0 < health_range.1 <= i32::MAX,
        0 < map_size.0 <= isize::MAX,
        0 < map_size.1 <= isize::MAX,
    ensures
        r.0.x == rx as int % map_size.0 as int + 1,
        r.0.y == ry as int % map_size.1 as int + 1,
        r.1.total_health == rh as int % (health_range.1 - health_range.0) + health_range.0,
        r.1.current_health == r.1.total_health,
{
    let (min_health, max_health) = health_range;
    let (map_width, map_height) = map_size;
    let x = (rx as usize % map_width) as isize + 1;
    let y = (ry as usize % map_height) as isize + 1;
    let total = rh % (max_health - min_health) + min_health;
    (Position::new(x, y), Health::new(total))
}

/// Spawns `num_goblins` goblins with random health in
/// `[min_health, max_health)` at random cells of `[1, map_width] ×
/// [1, map_height]`. Nothing else in the world changes.
pub fn spawn_goblin(
    world: &mut World,
    num_goblins: usize,
    health_range: (u32, u32),
    map_size: (usize, usize),
)
    requires
        health_range.0 < health_range.1 <= i32::MAX,
        0 < map_size.0 <= isize::MAX,
        0 < map_size.1 <= isize::MAX,
    ensures
        exists|ids: Seq<Entity>| {
            &&& ids.len() == num_goblins
            &&& ids.no_duplicates()
            &&& forall|i: int| 0 <= i < ids.len() ==> !model(*old(world)).live.contains(#[trigger] ids[i])
            &&& forall|i: int| 0 <= i < ids.len() ==> is_new_goblin(model(*final(world)), #[trigger] ids[i], health_range, map_size)
            &&& model(*final(world)).live == model(*old(world)).live + ids.to_set()
            &&& forall|e: Entity| !ids.contains(e) ==> same_at(model(*old(world)), model(*final(world)), e)
        },
{
    let ghost m = model(*world);
    let (min_health, max_health) = health_range;
    let (map_width, map_height) = map_size;
    let ghost mut ids: Seq<Entity> = Seq::empty();
    let mut n: usize = 0;
    while n < num_goblins
        invariant
            n <= num_goblins,
            m == model(*old(world)),
            health_range == (min_health, max_health),
            map_size == (map_width, map_height),
            min_health < max_health <= i32::MAX,
            0 < map_width <= isize::MAX,
            0 < map_height <= isize::MAX,
            ids.len() == n,
            ids.no_duplicates(),
            forall|i: int| 0 <= i < ids.len() ==> !m.live.contains(#[trigger] ids[i]),
            forall|i: int| 0 <= i < ids.len() ==> is_new_goblin(model(*world), #[trigger] ids[i], health_range, map_size),
            model(*world).live == m.live + ids.to_set(),
            forall|e: Entity| !ids.contains(e) ==> same_at(m, model(*world), e),
        decreases num_goblins - n,
    {
        let ghost before = model(*world);
        let rx = random_u32();
        let ry = random_u32();
        let rh = random_u32();
        let (pos, health) = goblin_from_draws(rx, ry, rh, health_range, map_size);
        let id = spawn_goblin_entity(
            world,
            Ai::default(),
            pos,
            health,
            Vision::new(GOBLIN_VIEW_RANGE),
            Renderable { glyph: 'G', color: (92, 255, 92, 255) },
        );
        proof {
            let old_ids = ids;
            assert(!old_ids.contains(id)) by {
                if old_ids.contains(id) {
                    let k = choose|k: int| 0 <= k < old_ids.len() && old_ids[k] == id;
                    assert(before.live.contains(old_ids[k]));
                }
            }
            ids = ids.push(id);
            old_ids.lemma_push_to_set_commute(id);
            assert(model(*world).live =~= m.live + ids.to_set());
            assert forall|i: int| 0 <= i < ids.len() implies is_new_goblin(model(*world), #[trigger] ids[i], health_range, map_size) by {
                if i < old_ids.len() {
                    assert(ids[i] == old_ids[i]);
                    assert(ids[i] != id);
                }
            }
            assert forall|e: Entity| !ids.contains(e) implies same_at(m, model(*world), e) by {
                assert(!old_ids.contains(e)) by {
                    if old_ids.contains(e) {
                        let k = choose|k: int| 0 <= k < old_ids.len() && old_ids[k] == e;
                        assert(ids[k] == e);
                    }
                }
                assert(ids[ids.len() - 1] == id);
                assert(e != id);
            }
            assert(ids.no_duplicates()) by {
                assert forall|i: int, j: int| 0 <= i < ids.len() && 0 <= j < ids.len() && i != j implies ids[i] != ids[j] by {
                    if i < old_ids.len() && j < old_ids.len() {
                        assert(ids[i] == old_ids[i] && ids[j] == old_ids[j]);
                    } else if i < old_ids.len() {
                        assert(ids[i] == old_ids[i]);
                    } else if j < old_ids.len() {
                        assert(ids[j] == old_ids[j]);
                    }
                }
            }
        }
        n = n + 1;
    }
}

/// The cell the player starts on: the middle of the console.
pub open spec fn player_start() -> Position {
    Position { x: (CONSOLE_WIDTH / 2) as isize, y: (CONSOLE_HEIGHT / 2) as isize }
}

/// Spawns the player in the middle of the console with full health, the
/// input state, and the `Player` marker.
pub fn spawn_player(world: &mut World) -> (r: Entity)
    ensures
        !model(*old(world)).live.contains(r),
        model(*final(world)).live == model(*old(world)).live.insert(r),
        model(*final(world)).players.contains(r),
        model(*final(world)).positions == model(*old(world)).positions.insert(r, player_start()),
        model(*final(world)).healths == model(*old(world)).healths.insert(
            r,
            Health { total_health: PLAYER_HEALTH, current_health: PLAYER_HEALTH as i32 },
        ),
        model(*final(world)).input_states == model(*old(world)).input_states.insert(
            r,
            InputState { was_input_handled_this_frame: false },
        ),
        !model(*final(world)).ais.contains_key(r),
        !model(*final(world)).visions.contains_key(r),
        forall|e: Entity| e != r ==> same_at(model(*old(world)), model(*final(world)), e),
{
    spawn_player_entity(
        world,
        Position::new((CONSOLE_WIDTH / 2) as isize, (CONSOLE_HEIGHT / 2) as isize),
        Renderable { glyph: '@', color: (255, 92, 92, 255) },
        Health::new(PLAYER_HEALTH),
        InputState::default(),
    )
}

} // verus!
