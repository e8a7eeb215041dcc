use chess_engine::coords::Position;

#[test]
fn it_works() {
    let pos = Position::new(2, 2);
    assert_eq!(pos.row(), 2);
    assert_eq!(pos.col(), 2);
    let delta = Position::new(1, 1);
    assert_eq!((pos + delta).row(), 3);
    assert_eq!((pos + delta).col(), 3);
}

#[test]
fn it_works2() {
    let pos = Position::new(-1, -1);
    assert_eq!(pos.row(), -1);
    assert_eq!(pos.col(), -1);
}

#[test]
fn coordinates_subtract_part_by_part() {
    let a = Position::new(5, -3);
    let b = Position::new(7, 2);
    let d = a - b;
    assert_eq!(d.row(), -2);
    assert_eq!(d.col(), -5);
    assert_eq!(d + b, a);
}
