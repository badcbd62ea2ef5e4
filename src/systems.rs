//! The per-tick systems and the scheduler that runs them in order.

use vstd::prelude::*;
use hecs::{Entity, World};
use crate::ai::{Action, Ai, AiState, decide};
use crate::error::{DRError, DRResult, ErrorView, component_missing, missing_entity};
use crate::events::{
    Damage,
    DeadEntity,
    Event,
    EventBusManager,
    EventKind,
    Handler,
    Subscription,
    deliver_all,
    error_views,
    insertion_index,
};
use crate::input::{ArrowKeys, InputState, key_offset};
use crate::models::{Position, step_x, step_y};
use crate::models::{CONSOLE_HEIGHT, CONSOLE_WIDTH};
use crate::world::{
    WorldModel,
    lists_exactly,
    model,
    all_healths,
    all_positions,
    ai_entities,
    any_input_state_entity,
    any_player_entity,
    set_ai,
    input_state_of,
    is_alive,
    position_of,
    set_input_state,
    set_position,
};

verus! {

/// Whether some entity stands at `(x, y)`.
pub open spec fn occupied(positions: Map<Entity, Position>, x: int, y: int) -> bool {
    exists|e: Entity| #[trigger] positions.contains_key(e) && positions[e].x == x && positions[e].y == y
}

/// Whether `(x, y)` is inside the console, off its one-cell border.
pub open spec fn in_console(x: int, y: int) -> bool {
    1 <= x <= CONSOLE_WIDTH - 2 && 1 <= y <= CONSOLE_HEIGHT - 2
}

/// An entity of the snapshot `locs` that stands at `p`, if any.
fn occupant(locs: &Vec<(Entity, Position)>, p: &Position) -> (r: Option<Entity>)
    ensures
        r is None <==> forall|i: int| 0 <= i < locs@.len() ==> #[trigger] locs@[i].1 != *p,
        r matches Some(e) ==> exists|i: int| 0 <= i < locs@.len() && #[trigger] locs@[i] == (e, *p),
{
    let mut i: usize = 0;
    while i < locs.len()
        invariant
            i <= locs@.len(),
            forall|j: int| 0 <= j < i ==> #[trigger] locs@[j].1 != *p,
        decreases locs.len() - i,
    {
        if locs[i].1 == *p {
            assert(locs@[i as int] == (locs@[i as int].0, *p));
            return Some(locs[i].0);
        }
        i = i + 1;
    }
    None
}

/// The position `(x, y)`, where both fit the machine's integers.
fn position_at(x: i128, y: i128) -> (r: Option<Position>)
    ensures
        r is Some <==> (isize::MIN <= x <= isize::MAX && isize::MIN <= y <= isize::MAX),
        r matches Some(p) ==> p.x == x && p.y == y,
{
    if x >= isize::MIN as i128 && x <= isize::MAX as i128 && y >= isize::MIN as i128 && y
        <= isize::MAX as i128 {
        Some(Position { x: x as isize, y: y as isize })
    } else {
        None
    }
}

/// Setting an input state twice is setting it once, to the second value.
proof fn lemma_input_state_twice(m: WorldModel, e: Entity, a: bool, b: bool)
    ensures
        m.with_input_state(e, InputState { was_input_handled_this_frame: a }).with_input_state(
            e,
            InputState { was_input_handled_this_frame: b },
        ) == m.with_input_state(e, InputState { was_input_handled_this_frame: b }),
{
    assert(m.input_states.insert(e, InputState { was_input_handled_this_frame: a }).insert(
        e,
        InputState { was_input_handled_this_frame: b },
    ) =~= m.input_states.insert(e, InputState { was_input_handled_this_frame: b }));
}

/// Moves the player by the arrow keys, or attacks whatever stands in the way.
pub struct InputSystem {
    pub input_state_entity_id: Option<Entity>,
}

impl Default for InputSystem {
    fn default() -> (r: InputSystem)
        ensures
            r.input_state_entity_id is None,
    {
        InputSystem { input_state_entity_id: None }
    }
}

/// The error with which the input system stops on `m`, if any, for the
/// player entity `id`.
pub open spec fn input_error(id: Option<Entity>, m: WorldModel) -> Option<ErrorView> {
    match id {
        None => Some(ErrorView::MissingEntity("player"@)),
        Some(p) => if !m.live.contains(p) {
            Some(ErrorView::GameOver)
        } else if !m.positions.contains_key(p) {
            Some(ErrorView::ComponentMissing("Position"@))
        } else if !m.input_states.contains_key(p) {
            Some(ErrorView::ComponentMissing("InputState"@))
        } else {
            None
        },
    }
}

/// The cell that the keys point the player at, standing at `p`.
pub open spec fn input_target(p: Position, keys: ArrowKeys) -> Option<(int, int)> {
    match key_offset(keys) {
        Some(d) => Some((p.x + d.0, p.y + d.1)),
        None => None,
    }
}

/// The outcome of a system, with its error read as characters.
pub open spec fn result_view(r: DRResult<()>) -> Result<(), ErrorView> {
    match r {
        Ok(()) => Ok(()),
        Err(e) => Err(e@),
    }
}

/// The error of an outcome, as a sequence of zero or one errors.
pub open spec fn error_seq(r: Result<(), ErrorView>) -> Seq<ErrorView> {
    match r {
        Ok(()) => Seq::empty(),
        Err(e) => seq![e],
    }
}

/// Whether the input system, run for player entity `id` with `keys` held, may
/// take the world model `m` and queue `q` to `m2` and `q2` with outcome `r`.
/// The input flag is cleared, then: where the keys point at a free cell on
/// the playing field, the player moves there; where they point at an
/// occupied cell, a `Damage` of 2 from the player to an occupant is queued;
/// either way the flag is set.
pub open spec fn input_step(
    id: Option<Entity>,
    keys: ArrowKeys,
    m: WorldModel,
    q: Seq<Event>,
    m2: WorldModel,
    q2: Seq<Event>,
    r: Result<(), ErrorView>,
) -> bool {
    match input_error(id, m) {
        Some(e) => r == Err::<(), ErrorView>(e) && m2 == m && q2 == q,
        None => r is Ok && {
            let p = id->Some_0;
            let cleared = m.with_input_state(p, InputState { was_input_handled_this_frame: false });
            let handled = m.with_input_state(p, InputState { was_input_handled_this_frame: true });
            match input_target(m.positions[p], keys) {
                None => m2 == cleared && q2 == q,
                Some((x, y)) => if in_console(x, y) && !occupied(m.positions, x, y) {
                    m2 == handled.with_position(p, Position { x: x as isize, y: y as isize }) && q2 == q
                } else if occupied(m.positions, x, y) {
                    &&& m2 == handled
                    &&& exists|e: Entity| #[trigger] m.positions.contains_key(e)
                        && m.positions[e].x == x && m.positions[e].y == y
                        && q2 == q.push(Event::Damage(Damage { from: p, to: e, damage: 2 }))
                } else {
                    m2 == cleared && q2 == q
                },
            }
        },
    }
}

/// When the keys point the player at a cell on which `g` alone stands, the
/// player stays put, sets the input flag, and queues a `Damage` of 2 to `g`.
pub proof fn lemma_blow_lands_on_sole_occupant(
    id: Option<Entity>,
    keys: ArrowKeys,
    m: WorldModel,
    q: Seq<Event>,
    m2: WorldModel,
    q2: Seq<Event>,
    r: Result<(), ErrorView>,
    g: Entity,
)
    requires
        input_step(id, keys, m, q, m2, q2, r),
        input_error(id, m) is None,
        input_target(m.positions[id->Some_0], keys) matches Some((x, y)) && m.positions.contains_key(g)
            && m.positions[g].x == x && m.positions[g].y == y,
        forall|e: Entity| #[trigger] m.positions.contains_key(e) && e != g ==> m.positions[e]
            != m.positions[g],
    ensures
        r is Ok,
        m2 == m.with_input_state(id->Some_0, InputState { was_input_handled_this_frame: true }),
        q2 == q.push(Event::Damage(Damage { from: id->Some_0, to: g, damage: 2 })),
{
    let (x, y) = input_target(m.positions[id->Some_0], keys)->Some_0;
    assert(occupied(m.positions, x, y));
    let e = choose|e: Entity| #[trigger] m.positions.contains_key(e) && m.positions[e].x == x
        && m.positions[e].y == y && q2 == q.push(
        Event::Damage(Damage { from: id->Some_0, to: e, damage: 2 }),
    );
    assert(m.positions[e] == m.positions[g]);
}

impl InputSystem {
    /// Finds the entity that holds the input state.
    pub fn init(&mut self, world: &mut World)
        ensures
            model(*final(world)) == model(*old(world)),
            final(self).input_state_entity_id is Some <==> !model(*old(world)).input_states.is_empty(),
            final(self).input_state_entity_id matches Some(e) ==> model(
                *old(world),
            ).input_states.contains_key(e),
    {
        self.input_state_entity_id = any_input_state_entity(world);
    }

    pub fn get_name(&self) -> (r: String)
        ensures
            r@ == "InputSystem"@,
    {
        "InputSystem".to_owned()
    }

    /// One turn of the player. The input flag is cleared, then: where the held
    /// keys point at a free cell on the playing field, the player moves there;
    /// where they point at an occupied cell, the occupant takes a `Damage` of 2
    /// from the player, queued on `bus`; either way the flag is set. A vanished
    /// player ends the game.
    pub fn call(&mut self, world: &mut World, keys: &ArrowKeys, bus: &mut EventBusManager) -> (r:
        DRResult<()>)
        ensures
            *final(self) == *old(self),
            final(bus).wf() == old(bus).wf(),
            forall|k: EventKind| final(bus).subscribers(k) == old(bus).subscribers(k),
            input_step(
                old(self).input_state_entity_id,
                *keys,
                model(*old(world)),
                old(bus).queue(),
                model(*final(world)),
                final(bus).queue(),
                result_view(r),
            ),
    {
        let ghost m = model(*world);
        let entity_locations = all_positions(world);
        let player = match self.input_state_entity_id {
            Some(p) => p,
            None => return Err(missing_entity("player")),
        };
        if !is_alive(world, player) {
            return Err(DRError::GameOver);
        }
        let player_pos = match position_of(world, player) {
            Some(p) => p,
            None => return Err(component_missing("Position")),
        };
        let next_position = match keys.offset() {
            Some(d) => position_at(
                player_pos.x as i128 + d.0 as i128,
                player_pos.y as i128 + d.1 as i128,
            ),
            None => None,
        };
        if input_state_of(world, player).is_none() {
            return Err(component_missing("InputState"));
        }
        set_input_state(world, player, InputState { was_input_handled_this_frame: false });
        let ghost target = input_target(m.positions[player], *keys);
        proof {
            if target is Some && next_position is None {
                let (x, y) = target->Some_0;
                assert(!in_console(x, y));
                assert(!occupied(m.positions, x, y));
            }
        }
        if let Some(next) = next_position {
            let found = occupant(&entity_locations, &next);
            proof {
                lemma_occupant(entity_locations@, m.positions, next, found);
            }
            if next.is_within_console_bounds() && found.is_none() {
                set_input_state(world, player, InputState { was_input_handled_this_frame: true });
                set_position(world, player, next);
                proof {
                    lemma_input_state_twice(m, player, false, true);
                }
            } else if let Some(target_entity) = found {
                set_input_state(world, player, InputState { was_input_handled_this_frame: true });
                bus.enqueue(Event::Damage(Damage { from: player, to: target_entity, damage: 2 }));
                proof {
                    lemma_input_state_twice(m, player, false, true);
                }
            }
        }
        Ok(())
    }
}

/// What the snapshot `locs` of `positions` says of the cell `p`.
proof fn lemma_occupant(
    locs: Seq<(Entity, Position)>,
    positions: Map<Entity, Position>,
    p: Position,
    found: Option<Entity>,
)
    requires
        lists_exactly(locs, positions),
        found is None <==> forall|i: int| 0 <= i < locs.len() ==> #[trigger] locs[i].1 != p,
        found matches Some(e) ==> exists|i: int| 0 <= i < locs.len() && #[trigger] locs[i] == (e, p),
    ensures
        found is Some <==> occupied(positions, p.x as int, p.y as int),
        found matches Some(e) ==> positions.contains_key(e) && positions[e] == p,
{
    if found is None {
        assert forall|e: Entity| #[trigger] positions.contains_key(e) implies !(positions[e].x == p.x
            && positions[e].y == p.y) by {
            let i = choose|i: int| 0 <= i < locs.len() && #[trigger] locs[i].0 == e;
            assert(locs[i].1 != p);
        }
    } else {
        let e = found->Some_0;
        let i = choose|i: int| 0 <= i < locs.len() && #[trigger] locs[i] == (e, p);
        assert(positions.contains_key(locs[i].0));
    }
}

/// One grid step from `a` towards `b`.
pub open spec fn step_pos(a: Position, b: Position) -> Position {
    Position { x: step_x(a, b) as isize, y: step_y(a, b) as isize }
}

/// The turn of AI entity `e` in `m`, with the player at `player` and `rp` as
/// its point of retreat: its next state, its next position, and whether it
/// lands an attack. A step onto an occupied cell is refused, as is an attack
/// on an empty one.
pub open spec fn ai_turn(m: WorldModel, e: Entity, player: Position, rp: Position) -> (
    AiState,
    Position,
    bool,
) {
    let here = m.positions[e];
    let (st, act) = decide(m.ais[e].curr_state, player, here, m.healths[e], m.visions[e], rp);
    match act {
        Action::GoTo(t) => {
            let n = step_pos(here, t);
            (st, if occupied(m.positions, n.x as int, n.y as int) {
                here
            } else {
                n
            }, false)
        },
        Action::Wait => (st, here, false),
        Action::Attack(t) => (st, here, occupied(m.positions, t.x as int, t.y as int)),
    }
}

/// Whether `m2` is `m` after every AI entity took its turn, entity `e`
/// retreating towards `rps[e]`.
pub open spec fn ai_moves(m: WorldModel, m2: WorldModel, player: Position, rps: Map<Entity, Position>) -> bool {
    &&& m2.live == m.live
    &&& m2.healths == m.healths
    &&& m2.visions == m.visions
    &&& m2.input_states == m.input_states
    &&& m2.players == m.players
    &&& m2.ais.dom() == m.ais.dom()
    &&& m2.positions.dom() == m.positions.dom()
    &&& forall|e: Entity| #[trigger] m.is_ai_entity(e) ==> {
        let (st, pos, _) = ai_turn(m, e, player, rps[e]);
        m2.ais[e] == Ai { curr_state: st } && m2.positions[e] == pos
    }
    &&& forall|e: Entity| !#[trigger] m.is_ai_entity(e) ==> {
        &&& m.ais.contains_key(e) ==> m2.ais[e] == m.ais[e]
        &&& m.positions.contains_key(e) ==> m2.positions[e] == m.positions[e]
    }
}

/// Whether `added` holds one `Damage` of 1 from each AI entity of `m` that
/// lands an attack, to an entity standing on the attacked cell (the player's,
/// `player`), and nothing else.
pub open spec fn ai_attacks(
    m: WorldModel,
    added: Seq<Event>,
    player: Position,
    rps: Map<Entity, Position>,
) -> bool {
    &&& forall|k: int| 0 <= k < added.len() ==> {
        &&& #[trigger] added[k] is Damage
        &&& m.positions.contains_key(added[k]->Damage_0.to)
        &&& m.positions[added[k]->Damage_0.to] == player
        &&& added[k]->Damage_0.damage == 1
        &&& m.is_ai_entity(added[k]->Damage_0.from)
        &&& ai_turn(m, added[k]->Damage_0.from, player, rps[added[k]->Damage_0.from]).2
    }
    &&& forall|e: Entity| #[trigger] m.is_ai_entity(e) && ai_turn(m, e, player, rps[e]).2
        ==> exists|k: int| 0 <= k < added.len() && #[trigger] added[k]->Damage_0.from == e
    &&& forall|j: int, k: int| 0 <= j < added.len() && 0 <= k < added.len() && j != k
        ==> added[j]->Damage_0.from != added[k]->Damage_0.from
}

/// Whether the AI acts this tick on `m`, or the error with which it stops,
/// for the player entity `id`. The AI acts only after the player did.
pub open spec fn ai_gate(id: Option<Entity>, m: WorldModel) -> Result<bool, ErrorView> {
    match id {
        None => Err(ErrorView::MissingEntity("player"@)),
        Some(p) => if !m.live.contains(p) {
            Err(ErrorView::MissingEntity("player"@))
        } else if !m.input_states.contains_key(p) {
            Err(ErrorView::ComponentMissing("InputState"@))
        } else if !m.input_states[p].was_input_handled_this_frame {
            Ok(false)
        } else if !m.positions.contains_key(p) {
            Err(ErrorView::ComponentMissing("Position"@))
        } else {
            Ok(true)
        },
    }
}

/// Whether the AI system, run for player entity `id` with `f` as the point
/// of retreat, may take the world model `m` and queue `q` to `m2` and `q2`
/// with outcome `r`: where the player acted, every AI entity takes its turn
/// and the landed attacks are queued.
pub open spec fn ai_step<F: Fn(Position, Position) -> Position>(
    f: F,
    id: Option<Entity>,
    m: WorldModel,
    q: Seq<Event>,
    m2: WorldModel,
    q2: Seq<Event>,
    r: Result<(), ErrorView>,
) -> bool {
    match ai_gate(id, m) {
        Err(e) => r == Err::<(), ErrorView>(e) && m2 == m && q2 == q,
        Ok(false) => r is Ok && m2 == m && q2 == q,
        Ok(true) => r is Ok && {
            let p = id->Some_0;
            let player = m.positions[p];
            exists|rps: Map<Entity, Position>| {
                &&& forall|e: Entity| #[trigger] m.is_ai_entity(e) ==> f.ensures(
                    (player, m.positions[e]),
                    rps[e],
                )
                &&& ai_moves(m, m2, player, rps)
                &&& q2.len() >= q.len()
                &&& q2.take(q.len() as int) == q
                &&& ai_attacks(m, q2.skip(q.len() as int), player, rps)
            }
        },
    }
}

/// Runs the AI entities, once the player has acted.
pub struct AiSystem {
    pub player_entity_id: Option<Entity>,
}

impl AiSystem {
    pub fn new() -> (r: AiSystem)
        ensures
            r.player_entity_id is None,
    {
        AiSystem { player_entity_id: None }
    }

    /// Finds the player.
    pub fn init(&mut self, world: &mut World)
        ensures
            model(*final(world)) == model(*old(world)),
            final(self).player_entity_id is Some <==> !model(*old(world)).players.is_empty(),
            final(self).player_entity_id matches Some(e) ==> model(*old(world)).players.contains(e),
    {
        self.player_entity_id = any_player_entity(world);
    }

    pub fn get_name(&self) -> (r: String)
        ensures
            r@ == "AISystem"@,
    {
        "AISystem".to_owned()
    }

    /// One turn of every AI entity, where the player acted this tick. Each
    /// AI decides by its state machine, with `retreat_point(player, me)` as
    /// where it flees to; a `GoTo` takes one step towards the goal unless the
    /// cell is taken, and an `Attack` on an occupied cell queues a `Damage`
    /// of 1 to the player on `bus`. Occupancy is read once, before any AI moves.
    pub fn call<F: Fn(Position, Position) -> Position>(
        &mut self,
        world: &mut World,
        bus: &mut EventBusManager,
        retreat_point: &F,
    ) -> (r: DRResult<()>)
        requires
            forall|a: Position, b: Position| retreat_point.requires((a, b)),
        ensures
            *final(self) == *old(self),
            final(bus).wf() == old(bus).wf(),
            forall|k: EventKind| final(bus).subscribers(k) == old(bus).subscribers(k),
            ai_step(
                *retreat_point,
                old(self).player_entity_id,
                model(*old(world)),
                old(bus).queue(),
                model(*final(world)),
                final(bus).queue(),
                result_view(r),
            ),
    {
        let ghost m = model(*world);
        let player = match self.player_entity_id {
            Some(p) => p,
            None => return Err(missing_entity("player")),
        };
        if !is_alive(world, player) {
            return Err(missing_entity("player"));
        }
        let handled = match input_state_of(world, player) {
            Some(s) => s.was_input_handled_this_frame,
            None => return Err(component_missing("InputState")),
        };
        if !handled {
            assert(bus.queue() == old(bus).queue());
            return Ok(());
        }
        let player_pos = match position_of(world, player) {
            Some(p) => p,
            None => return Err(component_missing("Position")),
        };
        let has_entity = all_positions(world);
        let ais = ai_entities(world);
        let ghost q0 = bus.queue();
        let ghost mut rps: Map<Entity, Position> = Map::empty();
        let ghost mut done: Set<Entity> = Set::empty();
        let mut i: usize = 0;
        while i < ais.len()
            invariant
                i <= ais@.len(),
                m == model(*old(world)),
                player == old(self).player_entity_id->Some_0,
                player_pos == m.positions[player],
                lists_exactly(has_entity@, m.positions),
                forall|j: int| 0 <= j < ais@.len() ==> {
                    let (e, a, p, h, v) = #[trigger] ais@[j];
                    &&& m.is_ai_entity(e)
                    &&& m.ais[e] == a
                    &&& m.positions[e] == p
                    &&& m.healths[e] == h
                    &&& m.visions[e] == v
                },
                forall|e: Entity| m.is_ai_entity(e) ==> exists|j: int| 0 <= j < ais@.len() && #[trigger] ais@[j].0 == e,
                forall|j: int, k: int| 0 <= j < ais@.len() && 0 <= k < ais@.len() && j != k ==> ais@[j].0 != ais@[k].0,
                forall|a: Position, b: Position| retreat_point.requires((a, b)),
                bus.wf() == old(bus).wf(),
                forall|k: EventKind| bus.subscribers(k) == old(bus).subscribers(k),
                q0 == old(bus).queue(),
                bus.queue().len() >= q0.len(),
                bus.queue().take(q0.len() as int) == q0,
                forall|e: Entity| done.contains(e) <==> exists|j: int| 0 <= j < i && #[trigger] ais@[j].0 == e,
                forall|e: Entity| #[trigger] done.contains(e) ==> retreat_point.ensures(
                    (player_pos, m.positions[e]),
                    rps[e],
                ),
                ({
                    let w = model(*world);
                    &&& w.live == m.live
                    &&& w.healths == m.healths
                    &&& w.visions == m.visions
                    &&& w.input_states == m.input_states
                    &&& w.players == m.players
                    &&& w.ais.dom() == m.ais.dom()
                    &&& w.positions.dom() == m.positions.dom()
                    &&& forall|e: Entity| #[trigger] done.contains(e) ==> {
                        let (st, pos, _) = ai_turn(m, e, player_pos, rps[e]);
                        w.ais[e] == Ai { curr_state: st } && w.positions[e] == pos
                    }
                    &&& forall|e: Entity| !#[trigger] done.contains(e) ==> {
                        &&& m.ais.contains_key(e) ==> w.ais[e] == m.ais[e]
                        &&& m.positions.contains_key(e) ==> w.positions[e] == m.positions[e]
                    }
                }),
                ({
                    let added = bus.queue().skip(q0.len() as int);
                    &&& forall|k: int| 0 <= k < added.len() ==> {
                        &&& #[trigger] added[k] is Damage
                        &&& m.positions.contains_key(added[k]->Damage_0.to)
                        &&& m.positions[added[k]->Damage_0.to] == player_pos
                        &&& added[k]->Damage_0.damage == 1
                        &&& done.contains(added[k]->Damage_0.from)
                        &&& m.is_ai_entity(added[k]->Damage_0.from)
                        &&& ai_turn(m, added[k]->Damage_0.from, player_pos, rps[added[k]->Damage_0.from]).2
                    }
                    &&& forall|e: Entity| #[trigger] done.contains(e) && ai_turn(m, e, player_pos, rps[e]).2
                        ==> exists|k: int| 0 <= k < added.len() && #[trigger] added[k]->Damage_0.from == e
                    &&& forall|j: int, k: int| 0 <= j < added.len() && 0 <= k < added.len() && j != k
                        ==> added[j]->Damage_0.from != added[k]->Damage_0.from
                }),
            decreases ais.len() - i,
        {
            let (id, ai, ai_pos, ai_health, ai_vision) = ais[i];
            let ghost before = model(*world);
            let ghost q_before = bus.queue();
            let rp = retreat_point(player_pos, ai_pos);
            let mut next_ai = ai;
            let action = next_ai.get_next_action(&player_pos, &ai_pos, &ai_health, &ai_vision, &rp);
            set_ai(world, id, next_ai);
            proof {
                assert(ais@[i as int].0 == id);
                assert(!done.contains(id)) by {
                    if done.contains(id) {
                        let j = choose|j: int| 0 <= j < i && #[trigger] ais@[j].0 == id;
                        assert(ais@[j].0 != ais@[i as int].0);
                    }
                }
                rps = rps.insert(id, rp);
            }
            match action {
                Action::GoTo(goal) => {
                    let next_pos = ai_pos.go_towards(&goal);
                    let found = occupant(&has_entity, &next_pos);
                    proof {
                        lemma_occupant(has_entity@, m.positions, next_pos, found);
                        assert(next_pos == step_pos(ai_pos, goal));
                    }
                    if found.is_none() {
                        set_position(world, id, next_pos);
                    }
                },
                Action::Wait => {},
                Action::Attack(target) => {
                    let found = occupant(&has_entity, &target);
                    proof {
                        lemma_occupant(has_entity@, m.positions, target, found);
                    }
                    if let Some(victim) = found {
                        bus.enqueue(Event::Damage(Damage { from: id, to: victim, damage: 1 }));
                        proof {
                            assert(bus.queue() == q_before.push(bus.queue().last()));
                            assert(m.positions[victim] == player_pos);
                        }
                    }
                },
            }
            proof {
                let ghost old_done = done;
                done = done.insert(id);
                assert forall|e: Entity| done.contains(e) <==> exists|j: int| 0 <= j < i + 1 && #[trigger] ais@[j].0 == e by {
                    if done.contains(e) && e != id {
                        assert(old_done.contains(e));
                        let j = choose|j: int| 0 <= j < i && #[trigger] ais@[j].0 == e;
                    }
                    if exists|j: int| 0 <= j < i + 1 && #[trigger] ais@[j].0 == e {
                        let j = choose|j: int| 0 <= j < i + 1 && #[trigger] ais@[j].0 == e;
                        if j < i {
                            assert(old_done.contains(e));
                        }
                    }
                }
                let added = bus.queue().skip(q0.len() as int);
                let added_before = q_before.skip(q0.len() as int);
                if bus.queue() != q_before {
                    assert(added =~= added_before.push(bus.queue().last()));
                    assert(bus.queue().take(q0.len() as int) =~= q0);
                    assert forall|e: Entity| #[trigger] done.contains(e) && ai_turn(m, e, player_pos, rps[e]).2
                        implies exists|k: int| 0 <= k < added.len() && #[trigger] added[k]->Damage_0.from == e by {
                        if e == id {
                            assert(added[added.len() - 1]->Damage_0.from == e);
                        } else {
                            assert(old_done.contains(e));
                            let k = choose|k: int| 0 <= k < added_before.len() && #[trigger] added_before[k]->Damage_0.from == e;
                            assert(added[k] == added_before[k]);
                        }
                    }
                } else {
                    assert(added =~= added_before);
                }
            }
            i = i + 1;
        }
        proof {
            assert forall|e: Entity| #[trigger] m.is_ai_entity(e) implies done.contains(e) by {
                let j = choose|j: int| 0 <= j < ais@.len() && #[trigger] ais@[j].0 == e;
            }
            assert forall|e: Entity| #[trigger] done.contains(e) implies m.is_ai_entity(e) by {
                let j = choose|j: int| 0 <= j < i && #[trigger] ais@[j].0 == e;
            }
            let w = model(*world);
            assert forall|e: Entity| #[trigger] m.is_ai_entity(e) implies {
                let (st, pos, _) = ai_turn(m, e, player_pos, rps[e]);
                w.ais[e] == Ai { curr_state: st } && w.positions[e] == pos
            } by {
                assert(done.contains(e));
            }
            assert forall|e: Entity| !#[trigger] m.is_ai_entity(e) implies {
                &&& m.ais.contains_key(e) ==> w.ais[e] == m.ais[e]
                &&& m.positions.contains_key(e) ==> w.positions[e] == m.positions[e]
            } by {
                assert(!done.contains(e));
            }
            assert(ai_moves(m, w, player_pos, rps));
        }
        Ok(())
    }
}

/// Applies the damage queued during the tick.
pub struct DamageSystem;

impl Default for DamageSystem {
    fn default() -> (r: DamageSystem) {
        DamageSystem
    }
}

/// The subscription through which queued damage reaches health.
pub open spec fn damage_subscription() -> Subscription {
    Subscription { handler: Handler::ApplyDamage, priority: 0 }
}

/// The subscription through which dead entities are despawned.
pub open spec fn dead_subscription() -> Subscription {
    Subscription { handler: Handler::CollectDead, priority: 0 }
}

impl DamageSystem {
    /// Subscribes the damage handler to `Damage` events.
    pub fn init(&mut self, bus: &mut EventBusManager)
        requires
            old(bus).wf(),
        ensures
            final(bus).wf(),
            final(bus).subscribers(EventKind::Damage) == old(bus).subscribers(EventKind::Damage).insert(
                insertion_index(old(bus).subscribers(EventKind::Damage), 0),
                damage_subscription(),
            ),
            final(bus).subscribers(EventKind::DeadEntity) == old(bus).subscribers(EventKind::DeadEntity),
            final(bus).queue() == old(bus).queue(),
    {
        bus.subscribe(EventKind::Damage, Subscription { handler: Handler::ApplyDamage, priority: 0 });
    }

    pub fn get_name(&self) -> (r: String)
        ensures
            r@ == "DamageSystem"@,
    {
        "DamageSystem".to_owned()
    }

    /// Flushes the queue of deferred events: each reaches the handlers of its
    /// kind, oldest first. Returns the errors the handlers reported.
    pub fn call(&mut self, world: &mut World, bus: &mut EventBusManager) -> (r: Vec<DRError>)
        ensures
            final(bus).wf() == old(bus).wf(),
            final(bus).queue() == Seq::<Event>::empty(),
            forall|k: EventKind| final(bus).subscribers(k) == old(bus).subscribers(k),
            (model(*final(world)), error_views(r@)) == deliver_all(
                old(bus).queue(),
                old(bus).subscribers(EventKind::Damage),
                old(bus).subscribers(EventKind::DeadEntity),
                model(*old(world)),
            ),
    {
        bus.dispatch_all(world)
    }
}

/// Despawns the entities whose health ran out.
pub struct DeadCollector;

impl Default for DeadCollector {
    fn default() -> (r: DeadCollector) {
        DeadCollector
    }
}

/// The `DeadEntity` events for the entities of `s`, in order.
pub open spec fn death_events(s: Seq<Entity>) -> Seq<Event> {
    s.map_values(|e: Entity| Event::DeadEntity(DeadEntity { entity: e }))
}

/// Whether dead collection, with `dmg` and `dead` as the handlers of damage
/// and of deaths, may take the world model `m` to `m2` with the errors
/// `errs`: a `DeadEntity` event is published for every entity whose health
/// is at most zero, each once, in some order.
pub open spec fn dead_step(
    dmg: Seq<Subscription>,
    dead: Seq<Subscription>,
    m: WorldModel,
    m2: WorldModel,
    errs: Seq<ErrorView>,
) -> bool {
    exists|ids: Seq<Entity>| {
        &&& forall|e: Entity| #[trigger] ids.contains(e) <==> (m.healths.contains_key(e)
            && m.healths[e].current_health <= 0)
        &&& ids.no_duplicates()
        &&& (m2, errs) == deliver_all(death_events(ids), dmg, dead, m)
    }
}

impl DeadCollector {
    /// Subscribes the despawning handler to `DeadEntity` events.
    pub fn init(&mut self, bus: &mut EventBusManager)
        requires
            old(bus).wf(),
        ensures
            final(bus).wf(),
            final(bus).subscribers(EventKind::DeadEntity) == old(bus).subscribers(
                EventKind::DeadEntity,
            ).insert(
                insertion_index(old(bus).subscribers(EventKind::DeadEntity), 0),
                dead_subscription(),
            ),
            final(bus).subscribers(EventKind::Damage) == old(bus).subscribers(EventKind::Damage),
            final(bus).queue() == old(bus).queue(),
    {
        bus.subscribe(
            EventKind::DeadEntity,
            Subscription { handler: Handler::CollectDead, priority: 0 },
        );
    }

    pub fn get_name(&self) -> (r: String)
        ensures
            r@ == "DeadCollector"@,
    {
        "DeadCollector".to_owned()
    }

    /// Publishes a `DeadEntity` event at once for every entity whose health is
    /// at most zero, each entity once, in the order the store yields them.
    /// Returns the errors the handlers reported.
    pub fn call(&mut self, world: &mut World, bus: &EventBusManager) -> (r: Vec<DRError>)
        ensures
            dead_step(
                bus.subscribers(EventKind::Damage),
                bus.subscribers(EventKind::DeadEntity),
                model(*old(world)),
                model(*final(world)),
                error_views(r@),
            ),
    {
        let ghost m = model(*world);
        let healths = all_healths(world);
        let mut errors: Vec<DRError> = Vec::new();
        let ghost mut dead: Seq<Entity> = Seq::empty();
        let mut i: usize = 0;
        while i < healths.len()
            invariant
                i <= healths@.len(),
                m == model(*old(world)),
                lists_exactly(healths@, m.healths),
                forall|e: Entity| #[trigger] dead.contains(e) <==> exists|j: int|
                    0 <= j < i && #[trigger] healths@[j].0 == e && healths@[j].1.current_health <= 0,
                dead.no_duplicates(),
                (model(*world), error_views(errors@)) == deliver_all(
                    death_events(dead),
                    bus.subscribers(EventKind::Damage),
                    bus.subscribers(EventKind::DeadEntity),
                    m,
                ),
            decreases healths.len() - i,
        {
            let (id, health) = healths[i];
            if health.current_health <= 0 {
                let ghost before = errors@;
                let event = Event::DeadEntity(DeadEntity { entity: id });
                let mut more = bus.publish(&event, world);
                let ghost added = more@;
                errors.append(&mut more);
                proof {
                    assert(!dead.contains(id)) by {
                        if dead.contains(id) {
                            let j = choose|j: int|
                                0 <= j < i && #[trigger] healths@[j].0 == id && healths@[j].1.current_health <= 0;
                            assert(healths@[j].0 != healths@[i as int].0);
                        }
                    }
                    let old_dead = dead;
                    dead = dead.push(id);
                    assert(death_events(dead).drop_last() =~= death_events(old_dead));
                    assert(death_events(dead).last() == event);
                    assert(error_views(errors@) =~= error_views(before) + error_views(added));
                    assert forall|e: Entity| #[trigger] dead.contains(e) <==> exists|j: int|
                        0 <= j < i + 1 && #[trigger] healths@[j].0 == e && healths@[j].1.current_health <= 0 by {
                        if e == id {
                            assert(healths@[i as int].0 == e);
                            assert(dead[dead.len() - 1] == e);
                        } else {
                            if old_dead.contains(e) {
                                let k = choose|k: int| 0 <= k < old_dead.len() && old_dead[k] == e;
                                assert(dead[k] == e);
                            }
                            if dead.contains(e) {
                                let k = choose|k: int| 0 <= k < dead.len() && dead[k] == e;
                                assert(k < old_dead.len());
                                assert(old_dead[k] == e);
                            }
                        }
                    }
                }
            } else {
                proof {
                    assert forall|e: Entity| #[trigger] dead.contains(e) <==> exists|j: int|
                        0 <= j < i + 1 && #[trigger] healths@[j].0 == e && healths@[j].1.current_health <= 0 by {
                        if exists|j: int| 0 <= j < i + 1 && #[trigger] healths@[j].0 == e && healths@[j].1.current_health <= 0 {
                            let j = choose|j: int| 0 <= j < i + 1 && #[trigger] healths@[j].0 == e && healths@[j].1.current_health <= 0;
                            assert(j != i);
                        }
                    }
                }
            }
            i = i + 1;
        }
        proof {
            assert forall|e: Entity| #[trigger] dead.contains(e) <==> (m.healths.contains_key(e)
                && m.healths[e].current_health <= 0) by {
                if m.healths.contains_key(e) && m.healths[e].current_health <= 0 {
                    let j = choose|j: int| 0 <= j < healths@.len() && #[trigger] healths@[j].0 == e;
                    assert(healths@[j].1 == m.healths[e]);
                }
            }
        }
        errors
    }
}

/// Where the scheduler is in its life.
#[derive(Debug, Clone, Copy, PartialEq, Eq, Structural)]
pub enum Stage {
    Uninitialized,
    Initialized,
    Running,
    Terminated,
}

/// The fixed pipeline of systems, run in order once per tick: input, AI,
/// damage, dead collection. Each tick sees the previous stage's effects.
pub struct Scheduler {
    pub input: InputSystem,
    pub ai: AiSystem,
    pub damage: DamageSystem,
    pub dead: DeadCollector,
    pub bus: EventBusManager,
    pub stage: Stage,
}

impl Scheduler {
    /// Well-formed: the event bus keeps its handlers in order.
    pub open spec fn wf(&self) -> bool {
        self.bus.wf()
    }

    pub fn new() -> (r: Scheduler)
        ensures
            r.wf(),
            r.stage == Stage::Uninitialized,
            r.input.input_state_entity_id is None,
            r.ai.player_entity_id is None,
            r.bus.queue() == Seq::<Event>::empty(),
            r.bus.subscribers(EventKind::Damage) == Seq::<Subscription>::empty(),
            r.bus.subscribers(EventKind::DeadEntity) == Seq::<Subscription>::empty(),
    {
        Scheduler {
            input: InputSystem::default(),
            ai: AiSystem::new(),
            damage: DamageSystem,
            dead: DeadCollector,
            bus: EventBusManager::new(),
            stage: Stage::Uninitialized,
        }
    }

    /// Initializes every system, in pipeline order, once the player and the
    /// first entities are spawned.
    pub fn init(&mut self, world: &mut World)
        requires
            old(self).wf(),
            old(self).stage == Stage::Uninitialized,
        ensures
            final(self).wf(),
            final(self).stage == Stage::Initialized,
            model(*final(world)) == model(*old(world)),
            final(self).input.input_state_entity_id is Some <==> !model(*old(world)).input_states.is_empty(),
            final(self).input.input_state_entity_id matches Some(e) ==> model(*old(world)).input_states.contains_key(e),
            final(self).ai.player_entity_id is Some <==> !model(*old(world)).players.is_empty(),
            final(self).ai.player_entity_id matches Some(e) ==> model(*old(world)).players.contains(e),
            final(self).bus.queue() == old(self).bus.queue(),
            final(self).bus.subscribers(EventKind::Damage) == old(self).bus.subscribers(EventKind::Damage).insert(
                insertion_index(old(self).bus.subscribers(EventKind::Damage), 0),
                damage_subscription(),
            ),
            final(self).bus.subscribers(EventKind::DeadEntity) == old(self).bus.subscribers(
                EventKind::DeadEntity,
            ).insert(
                insertion_index(old(self).bus.subscribers(EventKind::DeadEntity), 0),
                dead_subscription(),
            ),
    {
        self.input.init(world);
        self.ai.init(world);
        self.damage.init(&mut self.bus);
        self.dead.init(&mut self.bus);
        self.stage = Stage::Initialized;
    }

    /// Runs one tick: every system in order. A system's error is collected
    /// and the tick goes on, except `GameOver`, which stops the tick before
    /// the later systems and ends the game: every later tick fails the same
    /// way. Returns the errors collected.
    pub fn tick<F: Fn(Position, Position) -> Position>(
        &mut self,
        world: &mut World,
        keys: &ArrowKeys,
        retreat_point: &F,
    ) -> (r: Result<Vec<DRError>, DRError>)
        requires
            old(self).wf(),
            old(self).stage != Stage::Uninitialized,
            forall|a: Position, b: Position| retreat_point.requires((a, b)),
        ensures
            final(self).wf(),
            final(self).input == old(self).input,
            final(self).ai == old(self).ai,
            forall|k: EventKind| final(self).bus.subscribers(k) == old(self).bus.subscribers(k),
            r is Err <==> (old(self).stage == Stage::Terminated || input_error(
                old(self).input.input_state_entity_id,
                model(*old(world)),
            ) == Some(ErrorView::GameOver)),
            r matches Err(e) ==> e@ == ErrorView::GameOver,
            r is Err ==> final(self).stage == Stage::Terminated && model(*final(world)) == model(
                *old(world),
            ) && final(self).bus.queue() == old(self).bus.queue(),
            r is Ok ==> final(self).stage == Stage::Running && final(self).bus.queue() == Seq::<
                Event,
            >::empty(),
            r is Ok ==> ({
                let dmg = old(self).bus.subscribers(EventKind::Damage);
                let dead = old(self).bus.subscribers(EventKind::DeadEntity);
                exists|
                    m1: WorldModel,
                    q1: Seq<Event>,
                    r1: Result<(), ErrorView>,
                    m2: WorldModel,
                    q2: Seq<Event>,
                    r2: Result<(), ErrorView>,
                    m3: WorldModel,
                    e3: Seq<ErrorView>,
                    e4: Seq<ErrorView>,
                | {
                    &&& input_step(
                        old(self).input.input_state_entity_id,
                        *keys,
                        model(*old(world)),
                        old(self).bus.queue(),
                        m1,
                        q1,
                        r1,
                    )
                    &&& r1 != Err::<(), ErrorView>(ErrorView::GameOver)
                    &&& ai_step(*retreat_point, old(self).ai.player_entity_id, m1, q1, m2, q2, r2)
                    &&& (m3, e3) == deliver_all(q2, dmg, dead, m2)
                    &&& dead_step(dmg, dead, m3, model(*final(world)), e4)
                    &&& error_views(r->Ok_0@) == error_seq(r1) + error_seq(r2) + e3 + e4
                }
            }),
    {
        if self.stage == Stage::Terminated {
            return Err(DRError::GameOver);
        }
        let mut errors: Vec<DRError> = Vec::new();
        let ghost m0 = model(*world);
        let ghost q0 = self.bus.queue();
        let r1 = self.input.call(world, keys, &mut self.bus);
        let ghost m1 = model(*world);
        let ghost q1 = self.bus.queue();
        match r1 {
            Ok(()) => {},
            Err(e) => {
                if e.is_game_over() {
                    self.stage = Stage::Terminated;
                    return Err(e);
                }
                errors.push(e);
            },
        }
        assert(error_views(errors@) =~= error_seq(result_view(r1)));
        let r2 = self.ai.call(world, &mut self.bus, retreat_point);
        let ghost m2 = model(*world);
        let ghost q2 = self.bus.queue();
        let ghost before2 = errors@;
        match r2 {
            Ok(()) => {},
            Err(e) => {
                errors.push(e);
            },
        }
        assert(error_views(errors@) =~= error_views(before2) + error_seq(result_view(r2)));
        let ghost before3 = errors@;
        let mut damage_errors = self.damage.call(world, &mut self.bus);
        let ghost m3 = model(*world);
        let ghost e3 = error_views(damage_errors@);
        errors.append(&mut damage_errors);
        assert(error_views(errors@) =~= error_views(before3) + e3);
        let ghost before4 = errors@;
        let mut dead_errors = self.dead.call(world, &self.bus);
        let ghost e4 = error_views(dead_errors@);
        errors.append(&mut dead_errors);
        assert(error_views(errors@) =~= error_views(before4) + e4);
        assert(result_view(r1) != Err::<(), ErrorView>(ErrorView::GameOver));
        assert(error_views(errors@) == error_seq(result_view(r1)) + error_seq(result_view(r2)) + e3 + e4);
        self.stage = Stage::Running;
        Ok(errors)
    }
}

} // verus!
