use sparse_board::Position;

#[test]
fn add_works() {
    assert_eq!(Position::new(1, 2).translate(Position::new(2, 3)), Position::new(3, 5))
}

#[test]
fn neg_works() {
    assert_eq!(Position::new(1, 2).negate(), Position::new(-1, -2))
}

#[test]
fn sub_works() {
    assert_eq!(Position::new(2, 2).difference(Position::new(2, 3)), Position::new(0, -1))
}

#[test]
fn cmp_works() {
    let zero_zero = Position::new(0, 0);
    let zero_one = Position::new(0, 1);
    let one_zero = Position::new(1, 0);
    let one_one = Position::new(1, 1);

    assert_eq!(true, zero_zero == zero_zero);
    assert_eq!(true, zero_zero < zero_one);
    assert_eq!(true, zero_zero < one_zero);
    assert_eq!(true, zero_zero < one_one);
}

#[test]
fn new_u_works() {
    assert_eq!(Position::new_u(3, 4), Position::new(3, 4));
}

#[test]
fn default_is_origin() {
    assert_eq!(Position::default(), Position::new(0, 0));
}

#[test]
fn translate_xy_works() {
    assert_eq!(Position::new(5, -2).translate_xy(-7, 3), Position::new(-2, 1));
}
