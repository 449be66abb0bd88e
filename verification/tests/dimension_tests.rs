use sparse_board::Dimension;
use sparse_board::DimensionError;
use sparse_board::Position;

fn collect_positions(dimension: &Dimension) -> Vec<Position> {
    let mut positions = Vec::new();
    let mut iter = dimension.iter();
    while let Some(position) = iter.next() {
        positions.push(position);
    }
    positions
}

#[test]
fn dimension_dimension_iterator_works() {
    let dimension = Dimension::from_origin(Position::default(), 3, 3).unwrap();
    let positions_in_dimension = collect_positions(&dimension);

    assert_eq!(
        vec![
            Position::new(0, 0),
            Position::new(0, 1),
            Position::new(0, 2),
            Position::new(1, 0),
            Position::new(1, 1),
            Position::new(1, 2),
            Position::new(2, 0),
            Position::new(2, 1),
            Position::new(2, 2),
        ],
        positions_in_dimension
    )
}

#[test]
fn zero_sides_are_rejected() {
    assert_eq!(Dimension::new(0, 5), Err(DimensionError::InvalidDimension));
    assert_eq!(Dimension::new(5, 0), Err(DimensionError::InvalidDimension));
    assert_eq!(
        Dimension::from_origin(Position::new(2, 2), 0, 0),
        Err(DimensionError::InvalidDimension)
    );
}

#[test]
fn zero_side_is_rejected_even_for_oversized_width() {
    assert_eq!(
        Dimension::from_origin(Position::new(1, 1), usize::MAX, 0),
        Err(DimensionError::InvalidDimension)
    );
}

#[test]
fn field_amount_matches_iteration() {
    let dimension = Dimension::new(3, 4).unwrap();
    assert_eq!(dimension.width(), 3);
    assert_eq!(dimension.height(), 4);
    assert_eq!(dimension.field_amount(), 12);

    let positions = collect_positions(&dimension);
    assert_eq!(positions.len(), 12);
    assert_eq!(positions[0], dimension.origin);
    assert_eq!(positions[positions.len() - 1], dimension.max);
}

#[test]
fn contains_position_checks_each_axis() {
    let dimension = Dimension::from_origin(Position::new(0, 0), 3, 3).unwrap();
    assert!(dimension.contains_position(Position::new(0, 0)));
    assert!(dimension.contains_position(Position::new(1, 1)));
    assert!(dimension.contains_position(Position::new(2, 2)));
    // x in range, y beyond the max: outside, even though (1, 5) lies between
    // the corners in the lexicographic order of Position.
    assert!(!dimension.contains_position(Position::new(1, 5)));
    // y in range, x beyond the max.
    assert!(!dimension.contains_position(Position::new(5, 1)));
    assert!(!dimension.contains_position(Position::new(-1, 0)));
    assert!(!dimension.contains_position(Position::new(0, -1)));
}

#[test]
fn iteration_starts_at_a_custom_origin() {
    let dimension = Dimension::from_origin(Position::new(1, 1), 2, 2).unwrap();
    let positions = collect_positions(&dimension);
    assert_eq!(
        vec![
            Position::new(1, 1),
            Position::new(1, 2),
            Position::new(2, 1),
            Position::new(2, 2),
        ],
        positions
    );
}

#[test]
fn resize_is_idempotent() {
    let mut once = Dimension::new(3, 3).unwrap();
    once.resize(Position::new(5, -2));
    let mut twice = once;
    twice.resize(Position::new(5, -2));
    assert_eq!(once, twice);
}

#[test]
fn resize_grows_each_corner_component_wise() {
    let mut dimension = Dimension::new(3, 3).unwrap();
    dimension.resize(Position::new(-2, 5));
    assert_eq!(dimension.origin, Position::new(-2, 0));
    assert_eq!(dimension.max, Position::new(2, 5));

    let unchanged = dimension;
    dimension.resize(Position::new(0, 0));
    assert_eq!(dimension, unchanged);
}
