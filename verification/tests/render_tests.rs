use sparse_board::render::usize_to_string;
use sparse_board::render::TextRender;
use sparse_board::Board;
use sparse_board::Dimension;
use sparse_board::Position;

#[test]
fn print_board_works() {
    let dimension = Dimension::from_origin(Position::default(), 5, 5).unwrap();
    let mut board: Board<usize> = Board::new(dimension);
    board.set_field(Position::new(2, 2), 42);

    board.print("_")
}

#[test]
fn numbers_render_as_decimal_digits() {
    assert_eq!(usize_to_string(0), "0");
    assert_eq!(usize_to_string(7), "7");
    assert_eq!(usize_to_string(42), "42");
    assert_eq!(usize_to_string(1234567890), "1234567890");
    assert_eq!(9usize.render_text(), "9");
    assert_eq!(String::from("abc").render_text(), "abc");
}

#[test]
fn render_lines_lays_out_the_grid() {
    let mut board: Board<usize> = Board::new(Dimension::new(2, 2).unwrap());
    board.set_field(Position::new(0, 0), 5);

    let lines = board.render_lines("_");
    let expected = vec!["  0 1 ", "0 5 _ 0", "1 _ _ 1", "  0 1 "];
    assert_eq!(lines, expected);
}

#[test]
fn render_lines_supports_multi_line_cells() {
    let mut board: Board<String> = Board::new(Dimension::new(2, 1).unwrap());
    board.set_field(Position::new(0, 0), String::from("a\nb"));

    let lines = board.render_lines("_");
    let expected = vec!["    0   1   ", "0   a   _   0", "    b       ", "    0   1   "];
    assert_eq!(lines, expected);
}

#[test]
fn render_lines_pads_to_the_widest_cell() {
    let mut board: Board<usize> = Board::new(Dimension::new(2, 1).unwrap());
    board.set_field(Position::new(1, 0), 123);

    let lines = board.render_lines(".");
    let expected = vec!["    0   1   ", "0   .   123 0", "    0   1   "];
    assert_eq!(lines, expected);
}
