use duke_roguelike::ai::{Action, Ai, AiState, Vision};
use duke_roguelike::models::Position;
use duke_roguelike::stats::Health;

fn angle(from: &Position, to: &Position) -> f64 {
    let dx = (to.x - from.x) as f64;
    let dy = (to.y - from.y) as f64;
    dy.atan2(dx)
}

fn retreat_point(player: &Position, me: &Position) -> Position {
    let theta = 180.0 - angle(player, me);
    let (dx, dy) = theta.sin_cos();
    Position::new((dx * 10.0) as isize + player.x, (dy * 10.0) as isize + player.y)
}

#[test]
fn test_vision() {
    let vision = Vision::new(2);
    let one = Position::new(10, 10);

    let two = Position::new(10, 10);
    assert!(vision.can_see(&one, &two));
    assert!(vision.can_see(&two, &one));

    let two = Position::new(9, 10);
    assert!(vision.can_see(&one, &two));
    assert!(vision.can_see(&two, &one));

    let two = Position::new(9, 9);
    assert!(vision.can_see(&one, &two));
    assert!(vision.can_see(&two, &one));

    let two = Position::new(10, 8);
    assert!(vision.can_see(&one, &two));
    assert!(vision.can_see(&two, &one));

    let two = Position::new(9, 8);
    assert!(!vision.can_see(&one, &two));
    assert!(!vision.can_see(&two, &one));

    let vision = Vision::new(3);
    assert!(vision.can_see(&one, &two));
    assert!(vision.can_see(&two, &one));
}

#[test]
fn test_ai_get_next_action() {
    let player_position = Position::new(10, 10);
    let vision = Vision::new(2);
    let mut health = Health::new(10);
    let mut ai = Ai::default();
    let ai_pos = Position::new(0, 0);

    let retreat = retreat_point(&player_position, &ai_pos);
    let action = ai.get_next_action(&player_position, &ai_pos, &health, &vision, &retreat);
    assert_eq!(action, Action::Wait);
    assert_eq!(ai.curr_state, AiState::Idling);

    let ai_pos = Position::new(9, 9);
    let retreat = retreat_point(&player_position, &ai_pos);
    let action = ai.get_next_action(&player_position, &ai_pos, &health, &vision, &retreat);
    assert_eq!(action, Action::GoTo(player_position.clone()));
    assert_eq!(ai.curr_state, AiState::Angry);

    let action = ai.get_next_action(&player_position, &ai_pos, &health, &vision, &retreat);
    assert_eq!(action, Action::Attack(player_position.clone()));
    assert_eq!(ai.curr_state, AiState::Angry);

    health.current_health = 1;
    let action = ai.get_next_action(&player_position, &ai_pos, &health, &vision, &retreat);
    match action {
        Action::GoTo(pos) => {
            assert_ne!(pos, player_position);
            let diff_angle = angle(&player_position, &pos) - angle(&ai_pos, &player_position);
            assert!(diff_angle - 180.0 < 1e-3);
        }
        _ => assert!(false),
    }
    assert_eq!(ai.curr_state, AiState::Afraid);
}

#[test]
fn vision_boundary_is_inclusive() {
    let vision = Vision::new(5);
    let here = Position::new(0, 0);
    assert!(vision.can_see(&here, &Position::new(3, 4)));
    assert!(vision.can_see(&here, &Position::new(-5, 0)));
    assert!(!vision.can_see(&here, &Position::new(5, 1)));
    assert!(!vision.can_see(&here, &Position::new(4, 4)));
    let blind = Vision::new(0);
    assert!(blind.can_see(&here, &here));
    assert!(!blind.can_see(&here, &Position::new(0, 1)));
    let far = Position::new(isize::MAX, isize::MIN);
    assert!(!Vision::new(usize::MAX).can_see(&Position::new(isize::MIN, isize::MAX), &far));
}

#[test]
fn vision_is_symmetric_on_samples() {
    let vision = Vision::new(4);
    let points = [
        Position::new(0, 0),
        Position::new(3, 3),
        Position::new(-2, 4),
        Position::new(4, 0),
        Position::new(1, -4),
    ];
    for a in points.iter() {
        for b in points.iter() {
            assert_eq!(vision.can_see(a, b), vision.can_see(b, a));
        }
    }
}

#[test]
fn afraid_ai_flees_then_calms_down() {
    let player = Position::new(10, 10);
    let vision = Vision::new(2);
    let health = Health { total_health: 10, current_health: 1 };
    let mut ai = Ai { curr_state: AiState::Afraid };
    let retreat = Position::new(30, 30);

    let action = ai.get_next_action(&player, &Position::new(9, 10), &health, &vision, &retreat);
    assert_eq!(action, Action::GoTo(retreat));
    assert_eq!(ai.curr_state, AiState::Afraid);

    let action = ai.get_next_action(&player, &Position::new(0, 0), &health, &vision, &retreat);
    assert_eq!(action, Action::Wait);
    assert_eq!(ai.curr_state, AiState::Idling);
}

#[test]
fn angry_ai_loses_sight_and_idles() {
    let player = Position::new(10, 10);
    let vision = Vision::new(2);
    let health = Health::new(10);
    let mut ai = Ai { curr_state: AiState::Angry };
    let action = ai.get_next_action(&player, &Position::new(10, 13), &health, &vision, &player);
    assert_eq!(action, Action::Wait);
    assert_eq!(ai.curr_state, AiState::Idling);

    let mut ai = Ai { curr_state: AiState::Angry };
    let action = ai.get_next_action(&player, &Position::new(10, 12), &health, &vision, &player);
    assert_eq!(action, Action::GoTo(player));
    assert_eq!(ai.curr_state, AiState::Angry);
}
