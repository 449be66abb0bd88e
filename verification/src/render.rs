//! Debug rendering of a board as a text grid.
//!
//! The grid shows a header and footer of column indices, one block of lines
//! per board row framed by the row index, and each cell padded to a common
//! width, with the cell's rendered text or an empty marker.

use std::io::Write;

use vstd::prelude::*;
use vstd::string::*;

use crate::board::Board;
use crate::dimension::Dimension;

verus! {

/// Values that can render themselves as text for the debug grid.
pub trait TextRender {
    /// The characters the value's cell shows.
    spec fn spec_render(&self) -> Seq<char>;

    /// The text shown in this value's cell.
    fn render_text(&self) -> (r: String)
        ensures
            r@ == self.spec_render(),
    ;
}

/// The character of a single decimal digit.
pub open spec fn dec_digit(d: int) -> char {
    if d == 0 {
        '0'
    } else if d == 1 {
        '1'
    } else if d == 2 {
        '2'
    } else if d == 3 {
        '3'
    } else if d == 4 {
        '4'
    } else if d == 5 {
        '5'
    } else if d == 6 {
        '6'
    } else if d == 7 {
        '7'
    } else if d == 8 {
        '8'
    } else {
        '9'
    }
}

/// The decimal digits of `n`, most significant first.
pub open spec fn dec_seq(n: nat) -> Seq<char>
    decreases n,
{
    if n < 10 {
        seq![dec_digit(n as int)]
    } else {
        dec_seq(n / 10).push(dec_digit((n % 10) as int))
    }
}

/// A decimal rendering never is empty.
pub proof fn lemma_dec_seq_len(n: nat)
    ensures
        dec_seq(n).len() >= 1,
    decreases n,
{
    if n >= 10 {
        lemma_dec_seq_len(n / 10);
    }
}

/// A smaller number never needs more digits than a larger one.
pub proof fn lemma_dec_seq_monotone(a: nat, b: nat)
    requires
        a <= b,
    ensures
        dec_seq(a).len() <= dec_seq(b).len(),
    decreases b,
{
    if a >= 10 {
        lemma_dec_seq_monotone(a / 10, b / 10);
    } else if b >= 10 {
        lemma_dec_seq_len(b / 10);
    }
}

/// The text of a single decimal digit.
fn digit_str(d: usize) -> (r: &'static str)
    requires
        d < 10,
    ensures
        r@ == seq![dec_digit(d as int)],
{
    proof {
        reveal_strlit("0");
        reveal_strlit("1");
        reveal_strlit("2");
        reveal_strlit("3");
        reveal_strlit("4");
        reveal_strlit("5");
        reveal_strlit("6");
        reveal_strlit("7");
        reveal_strlit("8");
        reveal_strlit("9");
    }
    let r = match d {
        0 => "0",
        1 => "1",
        2 => "2",
        3 => "3",
        4 => "4",
        5 => "5",
        6 => "6",
        7 => "7",
        8 => "8",
        _ => "9",
    };
    proof {
        assert(r@ =~= seq![dec_digit(d as int)]);
    }
    r
}

/// Append the decimal digits of `n` to `out`.
fn push_dec(n: usize, out: &mut String)
    ensures
        final(out)@ == old(out)@ + dec_seq(n as nat),
    decreases n,
{
    if n < 10 {
        out.append(digit_str(n));
        assert(final(out)@ =~= old(out)@ + dec_seq(n as nat));
    } else {
        push_dec(n / 10, out);
        out.append(digit_str(n % 10));
        assert(final(out)@ =~= old(out)@ + dec_seq(n as nat));
    }
}

/// The decimal rendering of `n`.
pub fn usize_to_string(n: usize) -> (r: String)
    ensures
        r@ == dec_seq(n as nat),
{
    let mut s = String::new();
    push_dec(n, &mut s);
    proof {
        assert(s@ =~= dec_seq(n as nat));
    }
    s
}

impl TextRender for usize {
    /// A number shows its decimal digits.
    open spec fn spec_render(&self) -> Seq<char> {
        dec_seq(*self as nat)
    }

    fn render_text(&self) -> (r: String)
        ensures
            r@ == self.spec_render(),
    {
        usize_to_string(*self)
    }
}

impl TextRender for String {
    /// A string shows itself.
    open spec fn spec_render(&self) -> Seq<char> {
        self@
    }

    fn render_text(&self) -> (r: String)
        ensures
            r@ == self.spec_render(),
    {
        self.clone()
    }
}

/// The index of the first newline of `s`, or its length when there is none.
pub open spec fn first_newline(s: Seq<char>) -> int
    decreases s.len(),
{
    if s.len() == 0 {
        0
    } else if s[0] == '\n' {
        0
    } else {
        1 + first_newline(s.drop_first())
    }
}

/// The first newline lies between the start and the end of the text.
pub proof fn lemma_first_newline_bounds(s: Seq<char>)
    ensures
        0 <= first_newline(s) <= s.len(),
    decreases s.len(),
{
    if s.len() > 0 && s[0] != '\n' {
        lemma_first_newline_bounds(s.drop_first());
    }
}

/// When the characters before `k` are no newlines, and the one at `k` is,
/// then `k` is the first newline; without any newline, the first newline is
/// the length.
pub proof fn lemma_first_newline_is(t: Seq<char>, k: int)
    requires
        0 <= k <= t.len(),
        forall|j: int| 0 <= j < k ==> t[j] != '\n',
        k < t.len() ==> t[k] == '\n',
    ensures
        first_newline(t) == if k < t.len() {
            k
        } else {
            t.len() as int
        },
    decreases t.len(),
{
    if t.len() > 0 && t[0] != '\n' {
        let u = t.drop_first();
        assert(forall|j: int| 0 <= j < u.len() ==> u[j] == t[j + 1]);
        lemma_first_newline_is(u, k - 1);
    }
}

/// A segment closed by a newline loses one trailing carriage return.
pub open spec fn strip_cr(s: Seq<char>) -> Seq<char> {
    if s.len() > 0 && s.last() == '\r' {
        s.drop_last()
    } else {
        s
    }
}

/// The lines of `s`: the segments between newlines. A segment closed by a
/// newline loses a trailing carriage return; the final segment after the
/// last newline is kept as it stands, except that an empty one is dropped.
pub open spec fn spec_lines(s: Seq<char>) -> Seq<Seq<char>>
    decreases s.len(),
    via spec_lines_decreases
{
    if s.len() == 0 {
        Seq::empty()
    } else {
        let k = first_newline(s);
        if k == s.len() {
            seq![s]
        } else {
            seq![strip_cr(s.take(k))] + spec_lines(s.skip(k + 1))
        }
    }
}

#[via_fn]
proof fn spec_lines_decreases(s: Seq<char>) {
    lemma_first_newline_bounds(s);
}

/// The lines of `s`, as `spec_lines` describes them.
fn split_lines(s: &str) -> (r: Vec<String>)
    ensures
        r@.map_values(|t: String| t@) == spec_lines(s@),
        forall|k: int| 0 <= k < r@.len() ==> (#[trigger] r@[k])@.len() <= s@.len(),
        s@.len() == 0 ==> r@.len() == 0,
        s@.len() > 0 ==> r@.len() >= 1,
{
    let n = s.unicode_len();
    let mut r: Vec<String> = Vec::new();
    let mut start: usize = 0;
    let mut i: usize = 0;
    proof {
        assert(s@.skip(0) =~= s@);
        assert(r@.map_values(|t: String| t@) + spec_lines(s@) =~= spec_lines(s@));
    }
    while i < n
        invariant
            n == s@.len(),
            start <= i <= n,
            start > 0 ==> r@.len() >= 1,
            start == 0 ==> r@.len() == 0,
            forall|k: int| 0 <= k < r@.len() ==> (#[trigger] r@[k])@.len() <= s@.len(),
            forall|j: int| start <= j < i ==> s@[j] != '\n',
            spec_lines(s@) == r@.map_values(|t: String| t@) + spec_lines(s@.skip(start as int)),
        decreases n - i,
    {
        if s.get_char(i) == '\n' {
            let ghost prev = r@;
            let mut end = i;
            if end > start && s.get_char(end - 1) == '\r' {
                end = end - 1;
            }
            let segment = s.substring_char(start, end).to_owned();
            proof {
                let rest = s@.skip(start as int);
                let k = i - start;
                assert(forall|j: int| 0 <= j < rest.len() ==> rest[j] == s@[j + start]);
                lemma_first_newline_is(rest, k);
                assert(rest.take(k) =~= s@.subrange(start as int, i as int));
                assert(strip_cr(rest.take(k)) =~= segment@);
                assert(rest.skip(k + 1) =~= s@.skip(i + 1));
                assert(spec_lines(rest) == seq![segment@] + spec_lines(s@.skip(i + 1)));
                assert(prev.push(segment).map_values(|t: String| t@) =~= prev.map_values(
                    |t: String| t@,
                ).push(segment@));
                assert(prev.map_values(|t: String| t@).push(segment@) + spec_lines(s@.skip(i + 1))
                    =~= prev.map_values(|t: String| t@) + (seq![segment@] + spec_lines(
                    s@.skip(i + 1),
                )));
            }
            r.push(segment);
            start = i + 1;
        }
        i = i + 1;
    }
    if start < n {
        let ghost prev = r@;
        let segment = s.substring_char(start, n).to_owned();
        proof {
            let rest = s@.skip(start as int);
            assert(forall|j: int| 0 <= j < rest.len() ==> rest[j] == s@[j + start]);
            lemma_first_newline_is(rest, rest.len() as int);
            assert(rest =~= segment@);
            assert(spec_lines(rest) == seq![segment@]);
            assert(prev.push(segment).map_values(|t: String| t@) =~= prev.map_values(
                |t: String| t@,
            ).push(segment@));
            assert(prev.map_values(|t: String| t@).push(segment@) =~= prev.map_values(
                |t: String| t@,
            ) + seq![segment@]);
        }
        r.push(segment);
    } else {
        proof {
            assert(s@.skip(start as int) =~= Seq::<char>::empty());
            assert(spec_lines(s@.skip(start as int)) == Seq::<Seq<char>>::empty());
            assert(r@.map_values(|t: String| t@) + spec_lines(s@.skip(start as int))
                =~= r@.map_values(|t: String| t@));
        }
    }
    r
}

/// A run of `n` spaces (none for a negative `n`).
pub open spec fn spaces(n: int) -> Seq<char> {
    Seq::new(
        if n >= 0 {
            n as nat
        } else {
            0
        },
        |i: int| ' ',
    )
}

/// A cell's text, padded with spaces to width `w` and closed by one
/// separating space.
pub open spec fn padded_cell(s: Seq<char>, w: int) -> Seq<char> {
    s + spaces(w - s.len()) + seq![' ']
}

/// Cell line `li` of a cell whose text has the given lines: that line when
/// the cell is tall enough, empty otherwise.
pub open spec fn cell_line(lines: Seq<Seq<char>>, li: int) -> Seq<char> {
    if 0 <= li < lines.len() {
        lines[li]
    } else {
        Seq::empty()
    }
}

/// Line `li` of a row block restricted to its first `count` cells, each
/// padded to width `w`, in order.
pub open spec fn concat_cells(cells: Seq<Seq<Seq<char>>>, w: int, li: int) -> Seq<char>
    decreases cells.len(),
{
    if cells.len() == 0 {
        Seq::empty()
    } else {
        concat_cells(cells.drop_last(), w, li) + padded_cell(cell_line(cells.last(), li), w)
    }
}

/// Line `li` of a row block: the row index (first line) or blanks, a space,
/// every cell of the row padded to width `w`, and the row index closing the
/// first line.
pub open spec fn row_line(index: Seq<char>, w: int, cells: Seq<Seq<Seq<char>>>, li: int) -> Seq<
    char,
> {
    let lead = if li == 0 {
        index + spaces(w - index.len()) + seq![' ']
    } else {
        spaces(w) + seq![' ']
    };
    let tail = if li == 0 {
        index
    } else {
        Seq::empty()
    };
    lead + concat_cells(cells, w, li) + tail
}

/// The first `count` column indices of the header, each rendered in decimal
/// and padded to width `w`, in order.
pub open spec fn concat_indices(count: int, w: int) -> Seq<char>
    decreases count,
{
    if count <= 0 {
        Seq::empty()
    } else {
        concat_indices(count - 1, w) + padded_cell(dec_seq((count - 1) as nat), w)
    }
}

/// The split cell texts of row `row`: for each column `j` the lines of the
/// field string of rank `j * height + row` in enumeration order.
pub open spec fn row_cell_lines(fs: Seq<Seq<char>>, row: int, width: int, height: int) -> Seq<
    Seq<Seq<char>>,
> {
    Seq::new(width as nat, |j: int| spec_lines(fs[j * height + row]))
}

/// The character sequences of a list of strings.
pub open spec fn string_views(v: Seq<String>) -> Seq<Seq<char>> {
    v.map_values(|t: String| t@)
}

/// The cell texts of board `b` in enumeration order: for each rank the
/// rendering of the value stored at that rank's position, or the `empty`
/// marker where no value is stored.
pub open spec fn board_field_texts<T: TextRender>(b: Board<T>, empty: Seq<char>) -> Seq<Seq<char>> {
    Seq::new(
        b.spec_dimension().spec_field_amount() as nat,
        |k: int|
            if b.board_map().contains_key(b.spec_dimension().position_seq()[k]) {
                b.board_map()[b.spec_dimension().position_seq()[k]].spec_render()
            } else {
                empty
            },
    )
}

/// Rows `0 .. upto` of the grid stand in `lines`: line `li` of row `i` is at
/// index `1 + i * ch + li` and reads as `row_line` describes it, its cells
/// drawn from the field texts `fs`.
pub open spec fn grid_rows_upto(
    lines: Seq<Seq<char>>,
    fs: Seq<Seq<char>>,
    width: int,
    height: int,
    cw: int,
    ch: int,
    upto: int,
) -> bool {
    forall|i: int, li: int|
        0 <= i < upto && 0 <= li < ch ==> lines[1 + i * ch + li] == #[trigger] row_line(
            dec_seq(i as nat),
            cw,
            row_cell_lines(fs, i, width, height),
            li,
        )
}

/// The whole grid with cell width `cw` and cell height `ch`: a header of
/// column indices, one block of `ch` lines per row showing the field texts
/// `fs`, and the header again as footer. Every cell's text stands at its own
/// row and column.
pub open spec fn grid_layout(
    lines: Seq<Seq<char>>,
    fs: Seq<Seq<char>>,
    width: int,
    height: int,
    cw: int,
    ch: int,
) -> bool {
    &&& ch >= 1
    &&& lines.len() == 2 + height * ch
    &&& lines[0] == spaces(cw) + seq![' '] + concat_indices(width, cw)
    &&& lines[lines.len() - 1] == lines[0]
    &&& grid_rows_upto(lines, fs, width, height, cw, ch, height)
}

/// Relies on `std::io::Stdout` through the `writeln` macro: writes `s` and a
/// newline to the process's standard output.
#[verifier::external_body]
fn emit_line(s: &str) {
    let mut out = std::io::stdout();
    let _ = writeln!(out, "{}", s);
}

impl<T: TextRender> Board<T> {
    /// A run of `length` spaces.
    fn whitespace(length: usize) -> (r: String)
        ensures
            r@.len() == length,
            forall|k: int| 0 <= k < length ==> r@[k] == ' ',
    {
        let mut s = String::new();
        let mut i: usize = 0;
        while i < length
            invariant
                s@.len() == i,
                i <= length,
                forall|k: int| 0 <= k < i ==> s@[k] == ' ',
            decreases length - i,
        {
            proof {
                reveal_strlit(" ");
            }
            s.append(" ");
            i = i + 1;
        }
        s
    }

    /// The common cell size of the grid: no smaller than the longest text
    /// among the empty marker, the width and height labels and every cell,
    /// and at least one line tall.
    fn calculate_cell_size(empty: &str, dimension: &Dimension, field_strings: &Vec<String>) -> (r:
        (usize, usize))
        requires
            dimension.wf(),
            dimension.spec_width() <= isize::MAX,
            dimension.spec_height() <= isize::MAX,
        ensures
            r.0 >= empty@.len(),
            r.0 >= dec_seq(dimension.spec_width() as nat).len(),
            r.0 >= dec_seq(dimension.spec_height() as nat).len(),
            forall|i: int|
                0 <= i < field_strings@.len() ==> r.0 >= (#[trigger] field_strings@[i])@.len(),
            r.1 >= 1,
            r.1 >= spec_lines(empty@).len(),
            forall|i: int|
                0 <= i < field_strings@.len() ==> r.1 >= spec_lines(
                    (#[trigger] field_strings@[i])@,
                ).len(),
            r.0 == empty@.len() || r.0 == dec_seq(dimension.spec_width() as nat).len() || r.0
                == dec_seq(dimension.spec_height() as nat).len() || exists|i: int|
                0 <= i < field_strings@.len() && r.0 == (#[trigger] field_strings@[i])@.len(),
            r.1 == 1 || r.1 == spec_lines(empty@).len() || exists|i: int|
                0 <= i < field_strings@.len() && r.1 == spec_lines(
                    (#[trigger] field_strings@[i])@,
                ).len(),
    {
        let mut cell_w: usize = empty.unicode_len();
        let empty_lines = split_lines(empty);
        let mut cell_h: usize = empty_lines.len();

        let wlabel = usize_to_string(dimension.width());
        let wlabel_len = wlabel.as_str().unicode_len();
        if wlabel_len > cell_w {
            cell_w = wlabel_len;
        }
        let hlabel = usize_to_string(dimension.height());
        let hlabel_len = hlabel.as_str().unicode_len();
        if hlabel_len > cell_w {
            cell_w = hlabel_len;
        }
        if cell_h < 1 {
            cell_h = 1;
        }
        let n = field_strings.len();
        let mut i: usize = 0;
        while i < n
            invariant
                n == field_strings@.len(),
                i <= n,
                cell_h >= 1,
                cell_h >= spec_lines(empty@).len(),
                cell_w >= empty@.len(),
                cell_w >= dec_seq(dimension.spec_width() as nat).len(),
                cell_w >= dec_seq(dimension.spec_height() as nat).len(),
                forall|j: int| 0 <= j < i ==> cell_w >= (#[trigger] field_strings@[j])@.len(),
                forall|j: int|
                    0 <= j < i ==> cell_h >= spec_lines((#[trigger] field_strings@[j])@).len(),
                cell_w == empty@.len() || cell_w == dec_seq(dimension.spec_width() as nat).len()
                    || cell_w == dec_seq(dimension.spec_height() as nat).len() || exists|j: int|
                    0 <= j < i && cell_w == (#[trigger] field_strings@[j])@.len(),
                cell_h == 1 || cell_h == spec_lines(empty@).len() || exists|j: int|
                    0 <= j < i && cell_h == spec_lines((#[trigger] field_strings@[j])@).len(),
            decreases n - i,
        {
            let len_i = field_strings[i].as_str().unicode_len();
            if len_i > cell_w {
                cell_w = len_i;
            }
            let lines_i = split_lines(field_strings[i].as_str());
            if lines_i.len() > cell_h {
                cell_h = lines_i.len();
            }
            i = i + 1;
        }
        (cell_w, cell_h)
    }

    /// The header and footer line of the grid: one decimal column index per
    /// column, each padded to the cell width, after one blank cell.
    fn width_index_line(width: usize, cell_width: usize) -> (r: String)
        requires
            dec_seq(width as nat).len() <= cell_width,
        ensures
            r@ == spaces(cell_width as int) + seq![' '] + concat_indices(
                width as int,
                cell_width as int,
            ),
    {
        let ghost w = cell_width as int;
        let mut line = Self::whitespace(cell_width);
        proof {
            reveal_strlit(" ");
        }
        line.append(" ");
        proof {
            assert(" "@ =~= seq![' ']);
            assert(line@ =~= spaces(w) + seq![' '] + concat_indices(0, w));
        }
        let mut i: usize = 0;
        while i < width
            invariant
                dec_seq(width as nat).len() <= cell_width,
                i <= width,
                w == cell_width as int,
                line@ == spaces(w) + seq![' '] + concat_indices(i as int, w),
            decreases width - i,
        {
            let ghost line_before = line@;
            let index_string = usize_to_string(i);
            proof {
                lemma_dec_seq_monotone(i as nat, width as nat);
            }
            let len = index_string.as_str().unicode_len();
            line.append(index_string.as_str());
            line.append(Self::whitespace(cell_width - len).as_str());
            proof {
                reveal_strlit(" ");
            }
            line.append(" ");
            proof {
                assert(" "@ =~= seq![' ']);
                assert(line@ =~= line_before + padded_cell(dec_seq(i as nat), w));
                assert(line@ =~= spaces(w) + seq![' '] + concat_indices(i + 1, w));
            }
            i = i + 1;
        }
        line
    }

    /// The lines of one grid row: the row index, every cell of that row
    /// padded to the common cell size, and the row index again closing the
    /// first line. The row is `cell_size.1` lines tall, and each of its
    /// lines reads exactly as `row_line` describes it, so every cell's text
    /// stands at its own column.
    fn render_row(
        index_string: &String,
        cell_size: (usize, usize),
        field_strings: &Vec<String>,
        row: usize,
        width: usize,
        height: usize,
    ) -> (r: Vec<String>)
        requires
            cell_size.1 >= 1,
            row < height,
            field_strings@.len() == width * height,
            index_string@.len() <= cell_size.0,
            forall|i: int|
                0 <= i < field_strings@.len() ==> (#[trigger] field_strings@[i])@.len()
                    <= cell_size.0,
        ensures
            r@.len() == cell_size.1,
            forall|li: int|
                0 <= li < cell_size.1 ==> (#[trigger] r@[li])@ == row_line(
                    index_string@,
                    cell_size.0 as int,
                    row_cell_lines(
                        field_strings@.map_values(|t: String| t@),
                        row as int,
                        width as int,
                        height as int,
                    ),
                    li,
                ),
    {
        let ghost fs_views = field_strings@.map_values(|t: String| t@);
        let ghost rc = row_cell_lines(fs_views, row as int, width as int, height as int);
        let total = field_strings.len();
        let mut cells: Vec<Vec<String>> = Vec::new();
        let mut j: usize = 0;
        while j < width
            invariant
                cells@.len() == j,
                j <= width,
                row < height,
                total == field_strings@.len(),
                field_strings@.len() == width * height,
                fs_views == field_strings@.map_values(|t: String| t@),
                rc == row_cell_lines(fs_views, row as int, width as int, height as int),
                forall|a: int|
                    0 <= a < field_strings@.len() ==> (#[trigger] field_strings@[a])@.len()
                        <= cell_size.0,
                forall|a: int, b: int|
                    0 <= a < j && 0 <= b < cells@[a]@.len() ==> (#[trigger] cells@[a]@[b])@.len()
                        <= cell_size.0,
                forall|a: int|
                    0 <= a < j ==> (#[trigger] cells@[a])@.map_values(|t: String| t@) == rc[a],
            decreases width - j,
        {
            proof {
                assert(j * height + row < width * height) by (nonlinear_arith)
                    requires
                        0 <= j < width,
                        0 <= row < height,
                ;
            }
            let idx = j * height + row;
            let cell = split_lines(field_strings[idx].as_str());
            proof {
                assert(fs_views[idx as int] == field_strings@[idx as int]@);
                assert(rc[j as int] == spec_lines(fs_views[j * height + row]));
                assert(cell@.map_values(|t: String| t@) == rc[j as int]);
            }
            cells.push(cell);
            j = j + 1;
        }
        let mut out: Vec<String> = Vec::new();
        let mut li: usize = 0;
        while li < cell_size.1
            invariant
                out@.len() == li,
                li <= cell_size.1,
                cells@.len() == width,
                index_string@.len() <= cell_size.0,
                rc.len() == width,
                forall|a: int, b: int|
                    0 <= a < width && 0 <= b < cells@[a]@.len() ==> (#[trigger] cells@[a]@[b])@.len()
                        <= cell_size.0,
                forall|a: int|
                    0 <= a < width ==> (#[trigger] cells@[a])@.map_values(|t: String| t@) == rc[a],
                forall|a: int|
                    0 <= a < li ==> (#[trigger] out@[a])@ == row_line(
                        index_string@,
                        cell_size.0 as int,
                        rc,
                        a,
                    ),
            decreases cell_size.1 - li,
        {
            let ghost w = cell_size.0 as int;
            let ghost lead: Seq<char> = if li == 0 {
                index_string@ + spaces(w - index_string@.len()) + seq![' ']
            } else {
                spaces(w) + seq![' ']
            };
            let mut line = String::new();
            if li == 0 {
                let len = index_string.as_str().unicode_len();
                line.append(index_string.as_str());
                line.append(Self::whitespace(cell_size.0 - len).as_str());
            } else {
                line.append(Self::whitespace(cell_size.0).as_str());
            }
            proof {
                reveal_strlit(" ");
            }
            line.append(" ");
            proof {
                assert(" "@ =~= seq![' ']);
                assert(line@ =~= lead);
                assert(rc.take(0) =~= Seq::<Seq<Seq<char>>>::empty());
                assert(line@ =~= lead + concat_cells(rc.take(0), w, li as int));
            }
            let mut j2: usize = 0;
            while j2 < width
                invariant
                    j2 <= width,
                    cells@.len() == width,
                    rc.len() == width,
                    w == cell_size.0 as int,
                    index_string@.len() <= cell_size.0,
                    forall|a: int, b: int|
                        0 <= a < width && 0 <= b < cells@[a]@.len() ==> (
                        #[trigger] cells@[a]@[b])@.len() <= cell_size.0,
                    forall|a: int|
                        0 <= a < width ==> (#[trigger] cells@[a])@.map_values(|t: String| t@)
                            == rc[a],
                    line@ == lead + concat_cells(rc.take(j2 as int), w, li as int),
                decreases width - j2,
            {
                let ghost line_before = line@;
                let cell = &cells[j2];
                proof {
                    assert(cell@.map_values(|t: String| t@) == rc[j2 as int]);
                    assert(rc[j2 as int].len() == cell@.len());
                }
                if li < cell.len() {
                    let text = &cell[li];
                    let len = text.as_str().unicode_len();
                    line.append(text.as_str());
                    line.append(Self::whitespace(cell_size.0 - len).as_str());
                    proof {
                        assert(text@ == rc[j2 as int][li as int]);
                        assert(text@ == cell_line(rc[j2 as int], li as int));
                    }
                } else {
                    line.append(Self::whitespace(cell_size.0).as_str());
                    proof {
                        assert(cell_line(rc[j2 as int], li as int) =~= Seq::<char>::empty());
                    }
                }
                proof {
                    reveal_strlit(" ");
                }
                line.append(" ");
                proof {
                    let cl = cell_line(rc[j2 as int], li as int);
                    assert(" "@ =~= seq![' ']);
                    assert(line@ =~= line_before + padded_cell(cl, w));
                    assert(rc.take(j2 + 1).drop_last() =~= rc.take(j2 as int));
                    assert(rc.take(j2 + 1).last() == rc[j2 as int]);
                    assert(concat_cells(rc.take(j2 + 1), w, li as int) == concat_cells(
                        rc.take(j2 as int),
                        w,
                        li as int,
                    ) + padded_cell(cl, w));
                    assert(line@ =~= lead + concat_cells(rc.take(j2 + 1), w, li as int));
                }
                j2 = j2 + 1;
            }
            proof {
                assert(rc.take(width as int) =~= rc);
            }
            if li == 0 {
                line.append(index_string.as_str());
            }
            proof {
                assert(line@ =~= row_line(index_string@, w, rc, li as int));
            }
            out.push(line);
            li = li + 1;
        }
        out
    }

    /// Render the board as the lines of a text grid: a header and a footer
    /// of column indices around one block of lines per board row, each block
    /// as tall as the tallest cell. For some cell width and cell height the
    /// lines form the grid of this board's field texts, so every cell's
    /// content appears in its correct grid position.
    pub fn render_lines(&self, empty: &str) -> (r: Vec<String>)
        requires
            self.wf(),
            self.spec_dimension().spec_width() <= isize::MAX,
            self.spec_dimension().spec_height() <= isize::MAX,
            self.spec_dimension().spec_field_amount() <= usize::MAX,
        ensures
            r@.len() >= 3,
            exists|cw: int, ch: int|
                #[trigger] grid_layout(
                    string_views(r@),
                    board_field_texts(*self, empty@),
                    self.spec_dimension().spec_width(),
                    self.spec_dimension().spec_height(),
                    cw,
                    ch,
                ),
    {
        let ghost texts = board_field_texts(*self, empty@);
        let dim = self.dimension();
        let width = dim.width();
        let height = dim.height();
        let total = dim.field_amount();

        let mut field_strings: Vec<String> = Vec::new();
        let mut it = self.iter();
        let mut k: usize = 0;
        proof {
            assert(texts.take(0) =~= Seq::<Seq<char>>::empty());
            assert(field_strings@.map_values(|t: String| t@) =~= texts.take(0));
        }
        while k < total
            invariant
                self.wf(),
                it.wf(),
                it.board_map() == self.board_map(),
                it.seq() == self.spec_dimension().position_seq(),
                it.seq().len() == total,
                it.emitted() == k,
                k <= total,
                field_strings@.len() == k,
                texts == board_field_texts(*self, empty@),
                texts.len() == total,
                field_strings@.map_values(|t: String| t@) == texts.take(k as int),
            decreases total - k,
        {
            let ghost prev = field_strings@;
            match it.next() {
                Some(pair) => {
                    let pushed = match pair.1 {
                        None => empty.to_owned(),
                        Some(v) => v.render_text(),
                    };
                    proof {
                        assert(pair.0 == self.spec_dimension().position_seq()[k as int]);
                        assert(pushed@ == texts[k as int]);
                        assert(prev.push(pushed).map_values(|t: String| t@) =~= prev.map_values(
                            |t: String| t@,
                        ).push(pushed@));
                        assert(texts.take(k as int).push(texts[k as int]) =~= texts.take(
                            k + 1,
                        ));
                    }
                    field_strings.push(pushed);
                },
                None => {
                    // the iterator yields a position for every k below total
                    proof {
                        assert(false);
                    }
                },
            }
            k = k + 1;
        }
        proof {
            assert(texts.take(total as int) =~= texts);
        }

        let cell_size = Self::calculate_cell_size(empty, &dim, &field_strings);
        let ghost cw = cell_size.0 as int;
        let ghost ch = cell_size.1 as int;
        let header = Self::width_index_line(width, cell_size.0);
        let mut lines: Vec<String> = Vec::new();
        lines.push(header.clone());
        let mut i: usize = 0;
        while i < height
            invariant
                self.wf(),
                width == self.spec_dimension().spec_width(),
                height == self.spec_dimension().spec_height(),
                field_strings@.len() == width * height,
                field_strings@.map_values(|t: String| t@) == texts,
                cw == cell_size.0 as int,
                ch == cell_size.1 as int,
                cell_size.1 >= 1,
                dec_seq(self.spec_dimension().spec_height() as nat).len() <= cell_size.0,
                forall|a: int|
                    0 <= a < field_strings@.len() ==> (#[trigger] field_strings@[a])@.len()
                        <= cell_size.0,
                i <= height,
                lines@.len() == 1 + i * cell_size.1,
                lines@.len() >= 1,
                lines@[0]@ == header@,
                header@ == spaces(cw) + seq![' '] + concat_indices(width as int, cw),
                grid_rows_upto(
                    lines@.map_values(|t: String| t@),
                    texts,
                    width as int,
                    height as int,
                    cw,
                    ch,
                    i as int,
                ),
            decreases height - i,
        {
            let ghost lines_before = lines@;
            let index_string = usize_to_string(i);
            proof {
                lemma_dec_seq_monotone(i as nat, self.spec_dimension().spec_height() as nat);
            }
            let mut row_lines = Self::render_row(
                &index_string,
                cell_size,
                &field_strings,
                i,
                width,
                height,
            );
            let ghost row_views = row_lines@;
            lines.append(&mut row_lines);
            proof {
                assert((i + 1) * cell_size.1 == i * cell_size.1 + cell_size.1) by (nonlinear_arith);
                let before = lines_before.map_values(|t: String| t@);
                let after = lines@.map_values(|t: String| t@);
                assert(after =~= before + row_views.map_values(|t: String| t@));
                assert forall|i2: int, li: int|
                    0 <= i2 < i + 1 && 0 <= li < ch implies after[1 + i2 * ch + li]
                    == #[trigger] row_line(
                    dec_seq(i2 as nat),
                    cw,
                    row_cell_lines(texts, i2, width as int, height as int),
                    li,
                ) by {
                    if i2 < i {
                        assert(i2 * ch + li < i * ch) by (nonlinear_arith)
                            requires
                                0 <= i2 < i,
                                0 <= li < ch,
                        ;
                        assert(after[1 + i2 * ch + li] == before[1 + i2 * ch + li]);
                    } else {
                        assert(after[1 + i * ch + li] == row_views.map_values(|t: String| t@)[li]);
                        assert(row_views[li]@ == row_line(
                            dec_seq(i as nat),
                            cw,
                            row_cell_lines(texts, i as int, width as int, height as int),
                            li,
                        ));
                    }
                }
            }
            i = i + 1;
        }
        lines.push(header);
        proof {
            let fl = lines@.map_values(|t: String| t@);
            assert(lines@.len() == 2 + self.spec_dimension().spec_height() * ch);
            assert(self.spec_dimension().spec_height() * ch >= 1) by (nonlinear_arith)
                requires
                    self.spec_dimension().spec_height() >= 1,
                    ch >= 1,
            ;
            assert(fl[0] == header@);
            assert(fl[fl.len() - 1] == header@);
            assert forall|i2: int, li: int|
                0 <= i2 < height && 0 <= li < ch implies fl[1 + i2 * ch + li] == #[trigger] row_line(
                dec_seq(i2 as nat),
                cw,
                row_cell_lines(texts, i2, width as int, height as int),
                li,
            ) by {
                assert(i2 * ch + li < height * ch) by (nonlinear_arith)
                    requires
                        0 <= i2 < height,
                        0 <= li < ch,
                ;
            }
            assert(string_views(lines@) == fl);
            assert(grid_layout(
                string_views(lines@),
                texts,
                self.spec_dimension().spec_width(),
                self.spec_dimension().spec_height(),
                cw,
                ch,
            ));
        }
        lines
    }

    /// Print a debug-representation of this board to the standard output:
    /// the grid that `render_lines` computes, one line per `writeln`. This
    /// method exists to provide a default print method for any value that
    /// can render itself as text.
    ///
    /// The parameter `empty` determines what is displayed when some board
    /// field holds no value.
    pub fn print(&self, empty: &str)
        requires
            self.wf(),
            self.spec_dimension().spec_width() <= isize::MAX,
            self.spec_dimension().spec_height() <= isize::MAX,
            self.spec_dimension().spec_field_amount() <= usize::MAX,
    {
        let lines = self.render_lines(empty);
        let n = lines.len();
        let mut i: usize = 0;
        while i < n
            invariant
                n == lines@.len(),
                i <= n,
            decreases n - i,
        {
            emit_line(lines[i].as_str());
            i = i + 1;
        }
    }
}

} // verus!
