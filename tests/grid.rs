use advent_of_tools::{Dir, Point, CARDINALS};

#[test]
fn turn_right_by_45_degrees() {
    assert_eq!(Dir::NorthWest.turn_right(), Dir::North);
    assert_eq!(Dir::North.turn_right(), Dir::NorthEast);
    assert_eq!(Dir::NoDirection.turn_right(), Dir::NoDirection);
    let mut d = Dir::East;
    for _ in 0..8 {
        d = d.turn_right();
    }
    assert_eq!(d, Dir::East);
}

#[test]
fn turn_left_by_45_degrees() {
    assert_eq!(Dir::NorthWest.turn_left(), Dir::West);
    assert_eq!(Dir::North.turn_left(), Dir::NorthWest);
    assert_eq!(Dir::SouthWest.turn_left(), Dir::South);
}

#[test]
fn quarter_turns() {
    assert_eq!(Dir::North.turn_cardinal_left(), Dir::West);
    assert_eq!(Dir::East.turn_cardinal_left(), Dir::North);
    assert_eq!(Dir::South.turn_cardinal_right(), Dir::West);
    assert_eq!(Dir::West.turn_cardinal_right(), Dir::North);
    assert_eq!(Dir::NoDirection.turn_cardinal_right(), Dir::NoDirection);
}

#[test]
fn cardinal_directions() {
    for dir in CARDINALS {
        assert!(dir.is_cardinal());
    }
    assert!(!Dir::NorthWest.is_cardinal());
    assert!(!Dir::NoDirection.is_cardinal());
}

#[test]
fn direction_names() {
    assert_eq!(Dir::NoDirection.name(), "No direction");
    assert_eq!(Dir::SouthEast.name(), "South-East");
    assert_eq!(Dir::West.name(), "West");
}

#[test]
fn walking_one_step() {
    let p = Point { x: 3, y: 5 };
    assert_eq!(p.walk(Dir::North), Point { x: 3, y: 4 });
    assert_eq!(p.walk(Dir::SouthWest), Point { x: 2, y: 6 });
    assert_eq!(p.walk(Dir::NoDirection), p);
}

#[test]
fn point_arithmetic() {
    let p = Point { x: -2, y: 3 };
    assert_eq!(p.mul(-2), Point { x: 4, y: -6 });
    assert_eq!(p.add(Point { x: 5, y: 1 }), Point { x: 3, y: 4 });
    assert_eq!(p.sub(Point { x: 5, y: 1 }), Point { x: -7, y: 2 });
}

#[test]
fn manhattan() {
    let p = Point { x: 1, y: -4 };
    assert_eq!(p.manhattan_distance(Point { x: -2, y: 3 }), 10);
    assert_eq!(p.manhattan_distance(p), 0);
}
