use sparse_board::Board;
use sparse_board::Dimension;
use sparse_board::Position;

#[test]
fn get_field_works() {
    let mut board = Board::new(Dimension::new(3, 3).unwrap());
    let pos = Position::new(1, 1);
    assert_eq!(None, board.get_field(pos));

    board.set_field(pos, 42);
    assert_eq!(Some(&42), board.get_field(pos))
}

/// A not resizeable board should allow to set fields inside its
/// dimension, but  do nothing if the provided Position
/// is outside of it.
#[test]
fn set_field_not_resizeable_works() {
    let dimension = Dimension::new(3, 3).unwrap();
    let mut board = Board::new(dimension);
    let pos_in_dimension = Position::new(1, 1);
    let pos_outside_dimension = Position::new(4, 4);

    assert!(dimension.contains_position(pos_in_dimension));
    assert!(!dimension.contains_position(pos_outside_dimension));

    board.set_field(pos_in_dimension, 42);
    assert_eq!(Some(&42), board.get_field(pos_in_dimension));
    assert_eq!(board.dimension(), dimension);

    board.set_field(pos_outside_dimension, 42);
    assert_eq!(None, board.get_field(pos_outside_dimension));
    assert_eq!(board.dimension(), dimension);
}

/// A not resizeable board should allow to set fields regardless of its
/// dimension and resize if necessary.
#[test]
fn set_field_resizeable_works() {
    let dimension = Dimension::new(3, 3).unwrap();
    let mut board = Board::new_resizeable(dimension);
    let pos_in_dimension = Position::new(1, 1);
    let pos_outside_dimension = Position::new(4, 4);

    assert!(dimension.contains_position(pos_in_dimension));
    assert!(!dimension.contains_position(pos_outside_dimension));

    board.set_field(pos_in_dimension, 42);
    assert_eq!(Some(&42), board.get_field(pos_in_dimension));
    assert_eq!(board.dimension(), dimension);

    board.set_field(pos_outside_dimension, 42);
    assert_eq!(Some(&42), board.get_field(pos_outside_dimension));
    assert_eq!(board.dimension(), Dimension::new(5, 5).unwrap());
}

/// If the field at the target position is not empty a set_field call should overwrite its value.
#[test]
fn set_field_existing_works() {
    let mut board = Board::<usize>::new(Dimension::new(3, 3).unwrap());
    let pos = Position::new(0, 0);

    assert_eq!(None, board.get_field(pos));

    board.set_field(pos, 42);
    assert_eq!(Some(&42), board.get_field(pos));

    board.set_field(pos, 43);
    assert_eq!(Some(&43), board.get_field(pos));
}

/// A field should be cleared by Board::clear_field.
/// If the field was empty before, nothing should happen.
#[test]
fn clear_field_works() {
    let mut board = Board::<usize>::new(Dimension::new(3, 3).unwrap());
    let pos = Position::new(0, 0);
    assert_eq!(None, board.get_field(pos));

    board.set_field(pos, 42);
    assert_eq!(Some(&42), board.get_field(pos));

    assert_eq!(Some(42), board.clear_field(pos))
}

#[test]
fn clear_works() {
    let mut board = Board::<usize>::new(Dimension::new(3, 3).unwrap());
    let pos_a = Position::new(0, 0);
    let pos_b = Position::new(1, 1);

    board.set_field(pos_a, 42);
    assert_eq!(Some(&42), board.get_field(pos_a));
    board.set_field(pos_b, 43);
    assert_eq!(Some(&43), board.get_field(pos_b));

    board.clear();
    assert_eq!(None, board.get_field(pos_a));
    assert_eq!(None, board.get_field(pos_b));
}

#[test]
fn lib_dimension_iterator_works() {
    let dimension = Dimension::from_origin(Position::default(), 3, 3).unwrap();
    let mut positions_in_dimension = Vec::new();
    let mut iter = dimension.iter();
    while let Some(position) = iter.next() {
        positions_in_dimension.push(position);
    }

    assert_eq!(
        vec![
            Position::new(0, 0),
            Position::new(0, 1),
            Position::new(0, 2),
            Position::new(1, 0),
            Position::new(1, 1),
            Position::new(1, 2),
            Position::new(2, 0),
            Position::new(2, 1),
            Position::new(2, 2),
        ],
        positions_in_dimension
    )
}

#[test]
fn clear_field_on_empty_cell_changes_nothing() {
    let dimension = Dimension::new(3, 3).unwrap();
    let mut board = Board::<usize>::new(dimension);
    board.set_field(Position::new(2, 2), 7);

    assert_eq!(None, board.clear_field(Position::new(0, 0)));
    assert_eq!(board.dimension(), dimension);
    assert_eq!(Some(&7), board.get_field(Position::new(2, 2)));

    assert_eq!(Some(7), board.clear_field(Position::new(2, 2)));
    assert_eq!(None, board.get_field(Position::new(2, 2)));
    assert_eq!(board.dimension(), dimension);
}

#[test]
fn clear_keeps_dimension() {
    let dimension = Dimension::new(3, 3).unwrap();
    let mut board = Board::new_resizeable(dimension);
    board.set_field(Position::new(7, 7), 1);
    let grown = board.dimension();
    assert_eq!(grown, Dimension::new(8, 8).unwrap());

    board.clear();
    assert_eq!(board.dimension(), grown);
    assert_eq!(None, board.get_field(Position::new(7, 7)));
    assert!(board.resizeable());
}

#[test]
fn board_iter_pairs_positions_with_values() {
    let mut board = Board::<usize>::new(Dimension::new(2, 2).unwrap());
    board.set_field(Position::new(1, 1), 9);

    let mut iter = board.iter();
    assert_eq!(Some((Position::new(0, 0), None)), iter.next());
    assert_eq!(Some((Position::new(0, 1), None)), iter.next());
    assert_eq!(Some((Position::new(1, 0), None)), iter.next());
    assert_eq!(Some((Position::new(1, 1), Some(&9))), iter.next());
    assert_eq!(None, iter.next());
}
