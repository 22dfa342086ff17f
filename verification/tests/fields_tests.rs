use gailibrary::fields::{Dir2D, Pos2D, WhiteBlack, DIRS4, RGB};

#[test]
fn turns_go_round_the_compass() {
    assert_eq!(Dir2D::Up.turn_right(), Dir2D::Right);
    assert_eq!(Dir2D::Right.turn_right(), Dir2D::Down);
    assert_eq!(Dir2D::Down.turn_right(), Dir2D::Left);
    assert_eq!(Dir2D::Left.turn_right(), Dir2D::Up);
    assert_eq!(Dir2D::Up.turn_left(), Dir2D::Left);
    assert_eq!(Dir2D::Right.turn_left(), Dir2D::Up);
    assert_eq!(Dir2D::Down.turn_left(), Dir2D::Right);
    assert_eq!(Dir2D::Left.turn_left(), Dir2D::Down);
    assert_eq!(Dir2D::Up.turn_around(), Dir2D::Down);
    assert_eq!(Dir2D::Right.turn_around(), Dir2D::Left);
    assert_eq!(Dir2D::Down.turn_around(), Dir2D::Up);
    assert_eq!(Dir2D::Left.turn_around(), Dir2D::Right);
    for d in DIRS4 {
        assert_eq!(d.turn_left().turn_right(), d);
        assert_eq!(d.turn_right().turn_right(), d.turn_around());
        assert_eq!(d.turn_around().turn_around(), d);
    }
    assert_eq!(DIRS4, [Dir2D::Up, Dir2D::Right, Dir2D::Down, Dir2D::Left]);
}

#[test]
fn moves_follow_the_screen() {
    let p = Pos2D::new(3, 4);
    assert_eq!(p.move_by_one(Dir2D::Up), Pos2D::new(3, 3));
    assert_eq!(p.move_by_one(Dir2D::Right), Pos2D::new(4, 4));
    assert_eq!(p.move_by_one(Dir2D::Down), Pos2D::new(3, 5));
    assert_eq!(p.move_by_one(Dir2D::Left), Pos2D::new(2, 4));
}

#[test]
fn from_dim_lists_column_by_column() {
    let all = Pos2D::from_dim(2);
    assert_eq!(
        all,
        vec![Pos2D::new(0, 0), Pos2D::new(0, 1), Pos2D::new(1, 0), Pos2D::new(1, 1)]
    );
    assert!(Pos2D::from_dim(0).is_empty());
}

#[test]
fn from_range_takes_the_corners_in_any_order() {
    let all = Pos2D::from_range(Pos2D::new(1, 5), Pos2D::new(-1, 3));
    assert_eq!(
        all,
        vec![Pos2D::new(-1, 3), Pos2D::new(-1, 4), Pos2D::new(0, 3), Pos2D::new(0, 4)]
    );
    assert!(Pos2D::from_range(Pos2D::new(2, 0), Pos2D::new(2, 9)).is_empty());
}

#[test]
fn colours_toggle() {
    assert_eq!(WhiteBlack::White.toggle(), WhiteBlack::Black);
    assert_eq!(WhiteBlack::Black.toggle(), WhiteBlack::White);
    assert_eq!(WhiteBlack::from(0), WhiteBlack::White);
    assert_eq!(WhiteBlack::from(1), WhiteBlack::Black);
    assert_eq!(WhiteBlack::White.name(), "White");
    assert_eq!(Dir2D::Left.name(), "Left");
}

#[test]
fn directions_and_colours_as_text() {
    assert_eq!(Dir2D::Up.to_text(), "Dir2D(Up)");
    assert_eq!(Dir2D::Right.to_text(), "Dir2D(Right)");
    assert_eq!(Dir2D::Down.to_text(), "Dir2D(Down)");
    assert_eq!(Dir2D::Left.to_text(), "Dir2D(Left)");
    assert_eq!(WhiteBlack::White.to_text(), "WhiteBlack(White)");
    assert_eq!(WhiteBlack::Black.to_text(), "WhiteBlack(Black)");
}

#[test]
fn named_colours() {
    assert_eq!(RGB::white(), RGB::new(255, 255, 255));
    assert_eq!(RGB::black(), RGB::new(0, 0, 0));
    assert_eq!(RGB::orange(), RGB { r: 255, g: 165, b: 0 });
    assert_eq!(RGB::indigo(), RGB { r: 0, g: 28, b: 200 });
    assert_eq!(RGB::violet(), RGB { r: 128, g: 0, b: 255 });
}
