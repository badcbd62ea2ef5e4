use duke_roguelike::models::{CONSOLE_HEIGHT, CONSOLE_WIDTH, Position};
use duke_roguelike::stats::Health;

#[test]
fn test_position_create() {
    let pos = Position::new(10, 10);
    assert_eq!(pos.x, 10);
    assert_eq!(pos.y, 10);
}

#[test]
fn test_position_fast_distance() {
    let one = Position::new(0, 10);
    let two = Position::new(10, 10);
    assert_eq!(one.fast_distance(&one), 0);
    assert_eq!(two.fast_distance(&two), 0);
    let distance = one.fast_distance(&two);
    assert_eq!(distance, 10);
    assert_eq!(distance, two.fast_distance(&one));

    let three = Position::new(0, 0);
    let distance = two.fast_distance(&three);
    assert_eq!(distance, 20);
    assert_eq!(distance, three.fast_distance(&two));

    let distance_one_two = one.fast_distance(&two);
    let distance_two_three = two.fast_distance(&three);
    let distance_one_three = one.fast_distance(&three);
    assert!(distance_one_two + distance_two_three >= distance_one_three);
}

#[test]
fn test_position_euclidean_distance_squared() {
    let one = Position::new(0, 0);
    let two = Position::new(10, 0);
    assert_eq!(two.distance_squared(&two), 0);
    assert_eq!(one.distance_squared(&one), 0);
    let distance = two.distance_squared(&one);
    assert_eq!(distance, 100);
    assert_eq!(distance, one.distance_squared(&two));

    let three = Position::new(10, 10);
    assert_eq!(three.distance_squared(&three), 0);
    let distance = three.distance_squared(&one);
    assert_eq!(distance, 200);
    assert_eq!(distance, one.distance_squared(&three));

    let distance_one_two = one.distance_squared(&two);
    let distance_two_three = two.distance_squared(&three);
    let distance_one_three = one.distance_squared(&three);
    assert!(distance_one_two + distance_two_three >= distance_one_three);
}

#[test]
fn test_go_towards() {
    let initial_start = Position::new(0, 0);
    let goal = Position::new(10, 10);

    let mut curr_pos = initial_start;

    while curr_pos.distance_squared(&goal) > 0 {
        let next_pos = curr_pos.go_towards(&goal);
        println!("Curr Pos {curr_pos:?} -> Goal {goal:?} => Next Pos {next_pos:?}");
        let distance_to_goal = curr_pos.distance_squared(&goal);
        let next_distance_to_goal = next_pos.distance_squared(&goal);
        println!("Distance to goal: {distance_to_goal}");
        println!("Next Distance to goal: {next_distance_to_goal}");

        assert!(distance_to_goal > next_distance_to_goal);
        curr_pos = next_pos;
    }
}

#[test]
fn go_towards_takes_the_dominant_axis() {
    let here = Position::new(0, 0);
    assert_eq!(here.go_towards(&Position::new(10, 10)), Position::new(1, 1));
    assert_eq!(here.go_towards(&Position::new(-3, 3)), Position::new(-1, 1));
    assert_eq!(here.go_towards(&Position::new(5, 2)), Position::new(1, 0));
    assert_eq!(here.go_towards(&Position::new(-5, -2)), Position::new(-1, 0));
    assert_eq!(here.go_towards(&Position::new(2, -7)), Position::new(0, -1));
    assert_eq!(here.go_towards(&Position::new(0, 4)), Position::new(0, 1));
    assert_eq!(here.go_towards(&here), here);
}

#[test]
fn go_towards_at_the_edge_of_the_integers() {
    let far = Position::new(isize::MIN, 0);
    let there = Position::new(isize::MAX, 0);
    assert_eq!(far.go_towards(&there), Position::new(isize::MIN + 1, 0));
}

#[test]
fn metric_axioms_on_a_triple() {
    let a = Position::new(-3, 4);
    let b = Position::new(2, -1);
    let c = Position::new(7, 9);
    for p in [a, b, c] {
        assert_eq!(p.fast_distance(&p), 0);
        assert_eq!(p.distance_squared(&p), 0);
    }
    assert_eq!(a.fast_distance(&b), b.fast_distance(&a));
    assert_eq!(a.distance_squared(&c), c.distance_squared(&a));
    assert!(a.fast_distance(&c) <= a.fast_distance(&b) + b.fast_distance(&c));
    let (ab, bc, ac) = (
        (a.distance_squared(&b) as f64).sqrt(),
        (b.distance_squared(&c) as f64).sqrt(),
        (a.distance_squared(&c) as f64).sqrt(),
    );
    assert!(ac <= ab + bc);
}

#[test]
fn squared_distance_breaks_the_triangle_on_a_straight_line() {
    let a = Position::new(0, 0);
    let b = Position::new(1, 0);
    let c = Position::new(2, 0);
    assert_eq!(a.distance_squared(&b) + b.distance_squared(&c), 2);
    assert_eq!(a.distance_squared(&c), 4);
    assert!(b.new_from_dx_dy(-a.x, -a.y).dot_product(&c.new_from_dx_dy(-b.x, -b.y)) > 0);
}

#[test]
fn distance_squared_at_most_without_overflow() {
    let a = Position::new(isize::MIN, isize::MIN);
    let b = Position::new(isize::MAX, isize::MAX);
    assert!(!a.distance_squared_at_most(&b, u128::MAX));
    assert!(Position::new(0, 0).distance_squared_at_most(&Position::new(1, 1), 2));
    assert!(!Position::new(0, 0).distance_squared_at_most(&Position::new(1, 2), 4));
    assert!(Position::new(0, 0).distance_squared_at_most(&Position::new(1, 2), 5));
}

#[test]
fn dot_product_and_offsets() {
    let a = Position::new(3, -2);
    assert_eq!(a.dot_product(&Position::new(4, 5)), 2);
    assert_eq!(a.new_from_dx_dy(-1, 7), Position::new(2, 5));
}

#[test]
fn console_bounds_leave_a_border() {
    assert!(Position::new(1, 1).is_within_console_bounds());
    assert!(Position::new(CONSOLE_WIDTH as isize - 2, CONSOLE_HEIGHT as isize - 2).is_within_console_bounds());
    assert!(!Position::new(0, 5).is_within_console_bounds());
    assert!(!Position::new(5, 0).is_within_console_bounds());
    assert!(!Position::new(CONSOLE_WIDTH as isize - 1, 5).is_within_console_bounds());
    assert!(!Position::new(5, CONSOLE_HEIGHT as isize - 1).is_within_console_bounds());
    assert!(Position::new(5, 5).is_within_bounds((5, 5), (0, 9)));
    assert!(!Position::new(-5, 5).is_within_bounds((0, 9), (0, 9)));
}

#[test]
fn health_ratio_and_death() {
    let h = Health::new(10);
    assert_eq!(h.total_health, 10);
    assert_eq!(h.current_health, 10);
    assert!(!h.is_ratio_below_quarter());
    assert!(Health { total_health: 10, current_health: 2 }.is_ratio_below_quarter());
    assert!(!Health { total_health: 8, current_health: 2 }.is_ratio_below_quarter());
    assert!(Health { total_health: 0, current_health: -1 }.is_ratio_below_quarter());
    assert!(!Health { total_health: 0, current_health: 0 }.is_ratio_below_quarter());
    assert!(Health { total_health: 5, current_health: 0 }.is_dead());
    assert!(Health { total_health: 5, current_health: -3 }.is_dead());
    assert!(!Health { total_health: 5, current_health: 1 }.is_dead());
}
