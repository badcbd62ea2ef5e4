use duke_roguelike::ai::{Ai, AiState, Vision};
use duke_roguelike::entities::{
    goblin_from_draws, spawn_goblin, spawn_player, GOBLIN_VIEW_RANGE, PLAYER_HEALTH,
};
use duke_roguelike::error::DRError;
use duke_roguelike::events::{
    Damage, DeadEntity, Event, EventBus, EventBusManager, EventKind, Handler, Subscription,
};
use duke_roguelike::input::{ArrowKeys, InputState, Player};
use duke_roguelike::models::{Position, Renderable};
use duke_roguelike::stats::Health;
use duke_roguelike::systems::{
    AiSystem, DamageSystem, DeadCollector, InputSystem, Scheduler, Stage,
};
use duke_roguelike::world::despawn;
use hecs::{Entity, World};

fn no_keys() -> ArrowKeys {
    ArrowKeys { left: false, right: false, up: false, down: false }
}

fn right() -> ArrowKeys {
    ArrowKeys { right: true, ..no_keys() }
}

fn stay(_player: Position, me: Position) -> Position {
    me
}

fn player_at(world: &mut World, x: isize, y: isize) -> Entity {
    world.spawn((
        Player,
        Position::new(x, y),
        Renderable { glyph: '@', color: (255, 92, 92, 255) },
        Health::new(15),
        InputState::default(),
    ))
}

fn goblin_at(world: &mut World, x: isize, y: isize, health: u32) -> Entity {
    world.spawn((
        Ai::default(),
        Position::new(x, y),
        Health::new(health),
        Vision::new(6),
        Renderable { glyph: 'G', color: (92, 255, 92, 255) },
    ))
}

fn position(world: &World, e: Entity) -> Position {
    *world.get::<&Position>(e).unwrap()
}

fn current_health(world: &World, e: Entity) -> i32 {
    world.get::<&Health>(e).unwrap().current_health
}

fn input_flag(world: &World, e: Entity) -> bool {
    world.get::<&InputState>(e).unwrap().was_input_handled_this_frame
}

fn damage(from: Entity, to: Entity, amount: i32) -> Event {
    Event::Damage(Damage { from, to, damage: amount })
}

fn started(world: &mut World) -> Scheduler {
    let mut scheduler = Scheduler::new();
    scheduler.init(world);
    scheduler
}

#[test]
fn arrow_right_moves_the_player_onto_a_free_cell() {
    let mut world = World::new();
    let player = player_at(&mut world, 10, 10);
    let mut scheduler = started(&mut world);
    let errors = scheduler.tick(&mut world, &right(), &stay).unwrap();
    assert!(errors.is_empty());
    assert_eq!(position(&world, player), Position::new(11, 10));
    assert!(input_flag(&world, player));
    assert_eq!(scheduler.stage, Stage::Running);
}

#[test]
fn arrow_right_into_a_goblin_attacks_it() {
    let mut world = World::new();
    let player = player_at(&mut world, 10, 10);
    let goblin = goblin_at(&mut world, 11, 10, 5);
    let mut input = InputSystem::default();
    input.init(&mut world);
    let mut bus = EventBusManager::new();
    input.call(&mut world, &right(), &mut bus).unwrap();
    assert_eq!(position(&world, player), Position::new(10, 10));
    assert!(input_flag(&world, player));

    let mut damage_system = DamageSystem::default();
    damage_system.init(&mut bus);
    let errors = damage_system.call(&mut world, &mut bus);
    assert!(errors.is_empty());
    assert_eq!(current_health(&world, goblin), 3);
}

#[test]
fn a_full_tick_applies_the_players_blow() {
    let mut world = World::new();
    let player = player_at(&mut world, 10, 10);
    let goblin = goblin_at(&mut world, 11, 10, 5);
    let mut scheduler = started(&mut world);
    scheduler.tick(&mut world, &right(), &stay).unwrap();
    assert_eq!(position(&world, player), Position::new(10, 10));
    assert_eq!(current_health(&world, goblin), 3);
    assert_eq!(world.get::<&Ai>(goblin).unwrap().curr_state, AiState::Angry);
}

#[test]
fn no_key_leaves_the_flag_down_and_the_ai_idle() {
    let mut world = World::new();
    let player = player_at(&mut world, 10, 10);
    let goblin = goblin_at(&mut world, 13, 10, 5);
    let mut scheduler = started(&mut world);
    scheduler.tick(&mut world, &no_keys(), &stay).unwrap();
    assert!(!input_flag(&world, player));
    assert_eq!(position(&world, goblin), Position::new(13, 10));
    assert_eq!(world.get::<&Ai>(goblin).unwrap().curr_state, AiState::Idling);
}

#[test]
fn the_border_stops_the_player() {
    let mut world = World::new();
    let player = player_at(&mut world, 1, 10);
    let mut scheduler = started(&mut world);
    let left = ArrowKeys { left: true, right: true, ..no_keys() };
    scheduler.tick(&mut world, &left, &stay).unwrap();
    assert_eq!(position(&world, player), Position::new(1, 10));
    assert!(!input_flag(&world, player));
}

#[test]
fn goblins_step_towards_the_player_and_strike_when_adjacent() {
    let mut world = World::new();
    let player = player_at(&mut world, 10, 10);
    let walker = goblin_at(&mut world, 15, 10, 5);
    let striker = goblin_at(&mut world, 10, 12, 5);
    let mut scheduler = started(&mut world);
    scheduler.tick(&mut world, &right(), &stay).unwrap();
    assert_eq!(position(&world, player), Position::new(11, 10));
    assert_eq!(position(&world, walker), Position::new(14, 10));
    assert_eq!(position(&world, striker), Position::new(10, 11));

    scheduler.tick(&mut world, &ArrowKeys { left: true, ..no_keys() }, &stay).unwrap();
    assert_eq!(position(&world, player), Position::new(10, 10));
    assert_eq!(position(&world, walker), Position::new(13, 10));
    assert_eq!(current_health(&world, player), 14);
    assert_eq!(position(&world, striker), Position::new(10, 11));
}

#[test]
fn ai_waits_for_the_player() {
    let mut world = World::new();
    let _player = player_at(&mut world, 10, 10);
    let goblin = goblin_at(&mut world, 14, 10, 5);
    let mut ai = AiSystem::new();
    ai.init(&mut world);
    let mut bus = EventBusManager::new();
    ai.call(&mut world, &mut bus, &stay).unwrap();
    assert_eq!(position(&world, goblin), Position::new(14, 10));
}

#[test]
fn hurt_goblin_heads_for_its_retreat_point() {
    let mut world = World::new();
    let player = player_at(&mut world, 10, 10);
    let goblin = world.spawn((
        Ai { curr_state: AiState::Angry },
        Position::new(12, 10),
        Health { total_health: 10, current_health: 1 },
        Vision::new(6),
    ));
    world.get::<&mut InputState>(player).unwrap().was_input_handled_this_frame = true;
    let mut ai = AiSystem::new();
    ai.init(&mut world);
    let mut bus = EventBusManager::new();
    let away = |_p: Position, _me: Position| Position::new(20, 10);
    ai.call(&mut world, &mut bus, &away).unwrap();
    assert_eq!(position(&world, goblin), Position::new(13, 10));
    assert_eq!(world.get::<&Ai>(goblin).unwrap().curr_state, AiState::Afraid);
}

#[test]
fn dead_entities_are_collected() {
    let mut world = World::new();
    let player = player_at(&mut world, 10, 10);
    let goblin = goblin_at(&mut world, 11, 10, 2);
    let mut scheduler = started(&mut world);
    let errors = scheduler.tick(&mut world, &right(), &stay).unwrap();
    assert!(errors.is_empty());
    assert!(!world.contains(goblin));
    assert!(world.contains(player));
    assert!(world.query::<(Entity, &Position)>().iter().all(|(e, _)| e != goblin));
}

#[test]
fn game_over_stops_the_tick_before_the_other_systems() {
    let mut world = World::new();
    let player = player_at(&mut world, 10, 10);
    let goblin = goblin_at(&mut world, 12, 10, 5);
    let mut scheduler = started(&mut world);
    scheduler.bus.enqueue(damage(goblin, goblin, 1));
    despawn(&mut world, player).unwrap();
    let r = scheduler.tick(&mut world, &right(), &stay);
    assert_eq!(r.unwrap_err(), DRError::GameOver);
    assert_eq!(scheduler.stage, Stage::Terminated);
    assert_eq!(current_health(&world, goblin), 5);
    assert_eq!(scheduler.tick(&mut world, &right(), &stay).unwrap_err(), DRError::GameOver);
}

#[test]
fn input_errors_name_what_is_missing() {
    let mut world = World::new();
    let mut bus = EventBusManager::new();
    let mut input = InputSystem::default();
    assert_eq!(
        input.call(&mut world, &right(), &mut bus).unwrap_err(),
        DRError::MissingEntity("player".to_string())
    );
    let lone = world.spawn((InputState::default(),));
    input.init(&mut world);
    assert_eq!(
        input.call(&mut world, &right(), &mut bus).unwrap_err(),
        DRError::ComponentMissing("Position".to_string())
    );
    world.insert_one(lone, Position::new(3, 3)).unwrap();
    world.remove_one::<InputState>(lone).unwrap();
    assert_eq!(
        input.call(&mut world, &right(), &mut bus).unwrap_err(),
        DRError::ComponentMissing("InputState".to_string())
    );
}

#[test]
fn ai_errors_name_what_is_missing() {
    let mut world = World::new();
    let mut bus = EventBusManager::new();
    let mut ai = AiSystem::new();
    assert_eq!(
        ai.call(&mut world, &mut bus, &stay).unwrap_err(),
        DRError::MissingEntity("player".to_string())
    );
    world.spawn((Player,));
    ai.init(&mut world);
    assert_eq!(
        ai.call(&mut world, &mut bus, &stay).unwrap_err(),
        DRError::ComponentMissing("InputState".to_string())
    );
}

#[test]
fn each_subscriber_gets_each_event_once() {
    let mut world = World::new();
    let a = goblin_at(&mut world, 3, 3, 10);
    let b = goblin_at(&mut world, 4, 4, 10);
    let mut bus = EventBusManager::new();
    bus.subscribe(EventKind::Damage, Subscription { handler: Handler::ApplyDamage, priority: 5 });
    bus.subscribe(EventKind::Damage, Subscription { handler: Handler::ApplyDamage, priority: 1 });
    bus.enqueue(damage(a, b, 3));
    bus.enqueue(damage(b, a, 1));
    let errors = bus.dispatch_all(&mut world);
    assert!(errors.is_empty());
    assert_eq!(current_health(&world, b), 4);
    assert_eq!(current_health(&world, a), 8);
    let errors = bus.dispatch_all(&mut world);
    assert!(errors.is_empty());
    assert_eq!(current_health(&world, b), 4);
}

#[test]
fn events_without_subscribers_are_dropped() {
    let mut world = World::new();
    let a = goblin_at(&mut world, 3, 3, 10);
    let mut bus = EventBusManager::new();
    bus.enqueue(damage(a, a, 3));
    bus.enqueue(Event::DeadEntity(DeadEntity { entity: a }));
    let errors = bus.dispatch_all(&mut world);
    assert!(errors.is_empty());
    assert_eq!(current_health(&world, a), 10);
    assert!(world.contains(a));
}

#[test]
fn handler_failures_are_reported_and_do_not_stop_the_rest() {
    let mut world = World::new();
    let a = goblin_at(&mut world, 3, 3, 10);
    let gone = world.spawn((Position::new(1, 1),));
    let mut bus = EventBusManager::new();
    bus.subscribe(EventKind::Damage, Subscription { handler: Handler::ApplyDamage, priority: 0 });
    bus.subscribe(EventKind::DeadEntity, Subscription { handler: Handler::CollectDead, priority: 0 });
    bus.subscribe(EventKind::DeadEntity, Subscription { handler: Handler::CollectDead, priority: 0 });
    bus.enqueue(damage(a, gone, 3));
    bus.enqueue(Event::DeadEntity(DeadEntity { entity: gone }));
    bus.enqueue(damage(gone, a, 4));
    let errors = bus.dispatch_all(&mut world);
    assert_eq!(
        errors,
        vec![
            DRError::ComponentMissing("Health".to_string()),
            DRError::MissingEntity("dead entity".to_string()),
        ]
    );
    assert!(!world.contains(gone));
    assert_eq!(current_health(&world, a), 6);
}

#[test]
fn damage_saturates_at_the_integer_bounds() {
    let mut world = World::new();
    let a = world.spawn((Health { total_health: 1, current_health: i32::MIN + 1 },));
    let bus = {
        let mut bus = EventBusManager::new();
        bus.subscribe(EventKind::Damage, Subscription { handler: Handler::ApplyDamage, priority: 0 });
        bus
    };
    let errors = bus.publish(&damage(a, a, 5), &mut world);
    assert!(errors.is_empty());
    assert_eq!(current_health(&world, a), i32::MIN);
    bus.publish(&damage(a, a, -7), &mut world);
    assert_eq!(current_health(&world, a), i32::MIN + 7);
}

#[test]
fn subscribers_run_in_priority_then_subscription_order() {
    let mut bus = EventBus::new();
    let sub = |handler, priority| Subscription { handler, priority };
    bus.subscribe(sub(Handler::ApplyDamage, 3));
    bus.subscribe(sub(Handler::CollectDead, 1));
    bus.subscribe(sub(Handler::CollectDead, 3));
    bus.subscribe(sub(Handler::ApplyDamage, 0));
    bus.subscribe(sub(Handler::ApplyDamage, 1));
    assert_eq!(
        bus.subscriptions().clone(),
        vec![
            sub(Handler::ApplyDamage, 0),
            sub(Handler::CollectDead, 1),
            sub(Handler::ApplyDamage, 1),
            sub(Handler::ApplyDamage, 3),
            sub(Handler::CollectDead, 3),
        ]
    );
}

#[test]
fn spawning_and_despawning_leaves_nothing_behind() {
    let mut world = World::new();
    let player = spawn_player(&mut world);
    spawn_goblin(&mut world, 7, (5, 10), (78, 43));
    assert_eq!(world.len(), 8);
    let goblins: Vec<Entity> = world.query::<(Entity, &Ai)>().iter().map(|(e, _)| e).collect();
    assert_eq!(goblins.len(), 7);
    for &g in goblins.iter() {
        let p = position(&world, g);
        assert!(1 <= p.x && p.x <= 78 && 1 <= p.y && p.y <= 43);
        let h = *world.get::<&Health>(g).unwrap();
        assert!(5 <= h.total_health && h.total_health < 10);
        assert_eq!(h.current_health, h.total_health as i32);
        assert_eq!(world.get::<&Vision>(g).unwrap().view_range, GOBLIN_VIEW_RANGE);
    }
    for &g in goblins.iter() {
        despawn(&mut world, g).unwrap();
    }
    assert_eq!(world.len(), 1);
    assert!(world.query::<&Ai>().iter().next().is_none());
    assert_eq!(
        despawn(&mut world, goblins[0]).unwrap_err(),
        DRError::MissingEntity("no such entity".to_string())
    );
    assert_eq!(position(&world, player), Position::new(40, 22));
    assert_eq!(current_health(&world, player), PLAYER_HEALTH as i32);
}

#[test]
fn system_names() {
    assert_eq!(InputSystem::default().get_name(), "InputSystem");
    assert_eq!(AiSystem::new().get_name(), "AISystem");
    assert_eq!(DamageSystem::default().get_name(), "DamageSystem");
    assert_eq!(DeadCollector::default().get_name(), "DeadCollector");
}

#[test]
fn goblin_draws_map_to_cell_and_health() {
    let (pos, health) = goblin_from_draws(100, 7, 13, (5, 10), (78, 43));
    assert_eq!(pos, Position::new(100 % 78 + 1, 8));
    assert_eq!(health, Health { total_health: 13 % 5 + 5, current_health: 8 });
    let (pos, health) = goblin_from_draws(u32::MAX, 0, u32::MAX, (1, 2), (1, 1));
    assert_eq!(pos, Position::new(1, 1));
    assert_eq!(health, Health { total_health: 1, current_health: 1 });
}

#[test]
fn the_blow_lands_on_the_goblin_in_the_way() {
    let mut world = World::new();
    let player = player_at(&mut world, 10, 10);
    let bystander = goblin_at(&mut world, 12, 10, 5);
    let target = goblin_at(&mut world, 11, 10, 5);
    let mut input = InputSystem::default();
    input.init(&mut world);
    let mut bus = EventBusManager::new();
    bus.subscribe(EventKind::Damage, Subscription { handler: Handler::ApplyDamage, priority: 0 });
    input.call(&mut world, &right(), &mut bus).unwrap();
    assert!(bus.dispatch_all(&mut world).is_empty());
    assert_eq!(current_health(&world, target), 3);
    assert_eq!(current_health(&world, bystander), 5);
    assert_eq!(current_health(&world, player), 15);
}
