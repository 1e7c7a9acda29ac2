use vstd::prelude::*;
use crate::table::{is_grid, Table, TableError};
use crate::text::{chars_of, lines_of, push_all, push_repeat, repeat, split_lines, string_from_chars, views};

verus! {

/// What `textwrap::fill` makes of `s` at `width` columns.
pub uninterp spec fn filled(s: Seq<char>, width: nat) -> Seq<char>;

/// Relies on `textwrap::fill`: greedy word wrapping, lines joined by
/// newlines; the result depends on the text and the width alone.
#[verifier::external_body]
fn fill_text(s: &String, width: usize) -> (r: String)
    ensures
        r@ == filled(s@, width as nat),
{
    textwrap::fill(s.as_str(), width)
}

/// Relies on `termsize::get`: the column count of the terminal on standard
/// output, if there is one.
#[verifier::external_body]
fn terminal_cols() -> (r: Option<u16>) {
    termsize::get().map(|s| s.cols)
}

/// The width a table is laid out for when the terminal cannot be asked.
pub const DEFAULT_WIDTH: usize = 200;

/// The longest of `cells`, 0 when there is none.
pub open spec fn max_len(cells: Seq<Seq<char>>) -> nat
    decreases cells.len(),
{
    if cells.len() == 0 {
        0
    } else {
        let m = max_len(cells.drop_last());
        if cells.last().len() > m {
            cells.last().len()
        } else {
            m
        }
    }
}

/// The narrowest grid, `(m + 3) * n + 1` columns, fits in `width`.
pub open spec fn fits(m: nat, n: nat, width: nat) -> bool {
    (m + 3) * n + 1 <= width
}

/// The total width of the grid: `(m + 3 + k) * n + 1` for the largest `k`
/// that stays within `width` (see `lemma_widest_fit`).
pub open spec fn grid_total(n: nat, width: nat) -> int {
    ((width - 1) / (n as int)) * n + 1
}

/// The width of one column, its two padding spaces included.
pub open spec fn spacing_of(n: nat, width: nat) -> int {
    grid_total(n, width) / (n as int) - 1
}

/// The width a cell's text is wrapped to.
pub open spec fn wrap_of(n: nat, width: nat) -> int {
    spacing_of(n, width) - 2
}

/// Spaces after a cell's text of length `len`, up to `wrap + 1` columns.
pub open spec fn pad_of(len: nat, wrap: nat) -> nat {
    if len <= wrap + 1 {
        (wrap + 1 - len) as nat
    } else {
        0
    }
}

/// One cell of a line: a space, the text, its padding and a border.
pub open spec fn segment(c: Seq<char>, wrap: nat) -> Seq<char> {
    seq![' '] + c + repeat(' ', pad_of(c.len(), wrap)) + seq!['|']
}

pub open spec fn segments(cells: Seq<Seq<char>>, wrap: nat) -> Seq<char>
    decreases cells.len(),
{
    if cells.len() == 0 {
        Seq::empty()
    } else {
        segments(cells.drop_last(), wrap) + segment(cells.last(), wrap)
    }
}

/// One physical line of the grid.
pub open spec fn line_of(cells: Seq<Seq<char>>, wrap: nat) -> Seq<char> {
    seq!['|'] + segments(cells, wrap) + seq!['\n']
}

pub open spec fn border_cols(n: nat, spacing: nat, fill: char) -> Seq<char>
    decreases n,
{
    if n == 0 {
        Seq::empty()
    } else {
        border_cols((n - 1) as nat, spacing, fill) + repeat(fill, spacing) + seq!['+']
    }
}

/// A border line: `+`, then `spacing` fill characters and `+` per column.
pub open spec fn border(n: nat, spacing: nat, fill: char) -> Seq<char> {
    seq!['+'] + border_cols(n, spacing, fill) + seq!['\n']
}

/// The lines of each cell of a data row once wrapped.
pub open spec fn wrapped_row(row: Seq<Seq<char>>, wrap: nat) -> Seq<Seq<Seq<char>>> {
    row.map_values(|c: Seq<char>| lines_of(filled(c, wrap)))
}

/// The height of a row: its tallest cell, at least one line.
pub open spec fn tallest(cols: Seq<Seq<Seq<char>>>) -> nat
    decreases cols.len(),
{
    if cols.len() == 0 {
        1
    } else {
        let h = tallest(cols.drop_last());
        if cols.last().len() > h {
            cols.last().len()
        } else {
            h
        }
    }
}

/// Line `i` of each cell, empty past a cell's own lines.
pub open spec fn line_cells(cols: Seq<Seq<Seq<char>>>, i: int) -> Seq<Seq<char>> {
    cols.map_values(
        |col: Seq<Seq<char>>|
            if i < col.len() {
                col[i]
            } else {
                Seq::<char>::empty()
            },
    )
}

/// The first `k` physical lines of a row.
pub open spec fn stacked(cols: Seq<Seq<Seq<char>>>, wrap: nat, k: nat) -> Seq<char>
    decreases k,
{
    if k == 0 {
        Seq::empty()
    } else {
        stacked(cols, wrap, (k - 1) as nat) + line_of(line_cells(cols, k - 1), wrap)
    }
}

/// A data row: its physical lines, then a border of `-`.
pub open spec fn row_block(row: Seq<Seq<char>>, wrap: nat, spacing: nat) -> Seq<char> {
    let cols = wrapped_row(row, wrap);
    stacked(cols, wrap, tallest(cols)) + border(row.len(), spacing, '-')
}

pub open spec fn blocks(rows: Seq<Seq<Seq<char>>>, wrap: nat, spacing: nat) -> Seq<char>
    decreases rows.len(),
{
    if rows.len() == 0 {
        Seq::empty()
    } else {
        blocks(rows.drop_last(), wrap, spacing) + row_block(rows.last(), wrap, spacing)
    }
}

/// The grid for table rows `v` at `width` columns: borders of `=` round the
/// header line, then each data row.
pub open spec fn pretty_text(v: Seq<Seq<Seq<char>>>, width: nat) -> Seq<char> {
    let n = v[0].len();
    let spacing = spacing_of(n, width) as nat;
    let wrap = wrap_of(n, width) as nat;
    border(n, spacing, '=') + line_of(v[0], wrap) + border(n, spacing, '=') + blocks(
        v.drop_first(),
        wrap,
        spacing,
    )
}

/// The narrowest grid fits exactly when `width - 1` holds `m + 3` columns
/// for each of the `n` cells.
pub proof fn lemma_fits_iff(m: nat, n: nat, width: nat)
    requires
        n >= 1,
    ensures
        fits(m, n, width) <==> (width >= 1 && m + 3 <= (width - 1) / (n as int)),
{
    if width >= 1 {
        let w1 = (width - 1) as int;
        let q = w1 / (n as int);
        let r = w1 % (n as int);
        assert(w1 == q * n + r && 0 <= r < n) by (nonlinear_arith)
            requires n >= 1, q == w1 / (n as int), r == w1 % (n as int), w1 >= 0;
        if fits(m, n, width) {
            assert(m + 3 <= q) by (nonlinear_arith)
                requires (m + 3) * n <= w1, w1 == q * n + r, 0 <= r < n, n >= 1;
        }
        if m + 3 <= q {
            assert((m + 3) * n <= q * n) by (nonlinear_arith)
                requires m + 3 <= q, n >= 1;
        }
    }
}

/// When the narrowest grid fits, the grid's total width is `(m + 3 + k) * n + 1`
/// for the largest `k >= 0` that stays within `width`: it grows the columns as
/// far as they go, and never drops one.
pub proof fn lemma_widest_fit(m: nat, n: nat, width: nat)
    requires
        n >= 1,
        fits(m, n, width),
    ensures
        (width - 1) / (n as int) - (m + 3) >= 0,
        ({
            let k = (width - 1) / (n as int) - (m + 3);
            &&& grid_total(n, width) == (m + 3 + k) * n + 1
            &&& grid_total(n, width) <= width
            &&& (m + 3 + k + 1) * n + 1 > width
        }),
{
    lemma_fits_iff(m, n, width);
    let w1 = (width - 1) as int;
    let q = w1 / (n as int);
    let r = w1 % (n as int);
    assert(w1 == q * n + r && 0 <= r < n) by (nonlinear_arith)
        requires n >= 1, q == w1 / (n as int), r == w1 % (n as int), w1 >= 0;
    assert((q + 1) * n == q * n + n) by (nonlinear_arith);
}

/// Column spacing and wrap width stay within the width, and the wrap width
/// holds the longest header.
proof fn lemma_spacing(m: nat, n: nat, width: nat)
    requires
        n >= 1,
        fits(m, n, width),
    ensures
        grid_total(n, width) <= width,
        spacing_of(n, width) >= m + 2,
        wrap_of(n, width) >= m,
        spacing_of(n, width) < width,
{
    lemma_widest_fit(m, n, width);
    let q = (width - 1) / (n as int);
    let t = q * n + 1;
    assert(t / (n as int) >= q) by (nonlinear_arith)
        requires t == q * n + 1, n >= 1, q >= 0;
    assert(t / (n as int) <= t) by (nonlinear_arith)
        requires n >= 1, t >= 1;
}

proof fn lemma_segments_len(cells: Seq<Seq<char>>, wrap: nat)
    requires
        forall|i: int| 0 <= i < cells.len() ==> #[trigger] cells[i].len() <= wrap + 1,
    ensures
        segments(cells, wrap).len() == cells.len() * (wrap + 3),
    decreases cells.len(),
{
    if cells.len() > 0 {
        let p = cells.drop_last();
        assert forall|i: int| 0 <= i < p.len() implies #[trigger] p[i].len() <= wrap + 1 by {
            assert(p[i] == cells[i]);
        }
        lemma_segments_len(p, wrap);
        assert(cells.last().len() <= wrap + 1);
        assert((p.len() + 1) * (wrap + 3) == p.len() * (wrap + 3) + (wrap + 3)) by (nonlinear_arith);
    }
}

proof fn lemma_border_cols_len(n: nat, spacing: nat, fill: char)
    ensures
        border_cols(n, spacing, fill).len() == n * (spacing + 1),
    decreases n,
{
    if n == 0 {
        assert(n * (spacing + 1) == 0) by (nonlinear_arith)
            requires n == 0;
    } else {
        lemma_border_cols_len((n - 1) as nat, spacing, fill);
        assert(repeat(fill, spacing).len() == spacing);
        assert(((n - 1) as nat + 1) * (spacing + 1) == (n - 1) as nat * (spacing + 1) + (spacing
            + 1)) by (nonlinear_arith);
    }
}

/// Grid lines align: a line of `n` cells, none longer than `wrap + 1`, is as
/// long as a border line of columns `wrap + 2` wide, whatever its fill.
pub proof fn lemma_lines_align(cells: Seq<Seq<char>>, wrap: nat, fill: char)
    requires
        forall|i: int| 0 <= i < cells.len() ==> #[trigger] cells[i].len() <= wrap + 1,
    ensures
        line_of(cells, wrap).len() == border(cells.len(), wrap + 2, fill).len(),
{
    lemma_segments_len(cells, wrap);
    lemma_border_cols_len(cells.len(), wrap + 2, fill);
}

proof fn lemma_max_len_bounds(cells: Seq<Seq<char>>)
    ensures
        forall|i: int| 0 <= i < cells.len() ==> #[trigger] cells[i].len() <= max_len(cells),
    decreases cells.len(),
{
    if cells.len() > 0 {
        let p = cells.drop_last();
        lemma_max_len_bounds(p);
        assert forall|i: int| 0 <= i < cells.len() implies #[trigger] cells[i].len() <= max_len(
            cells,
        ) by {
            if i < p.len() {
                assert(p[i] == cells[i]);
            }
        }
    }
}

/// In a grid that fits, the header line is exactly as wide as the borders
/// round it.
pub proof fn lemma_header_aligns(v: Seq<Seq<Seq<char>>>, width: nat)
    requires
        is_grid(v),
        v[0].len() > 0,
        fits(max_len(v[0]), v[0].len(), width),
    ensures
        line_of(v[0], wrap_of(v[0].len(), width) as nat).len() == border(
            v[0].len(),
            spacing_of(v[0].len(), width) as nat,
            '=',
        ).len(),
{
    let m = max_len(v[0]);
    let n = v[0].len();
    lemma_spacing(m, n, width);
    lemma_max_len_bounds(v[0]);
    let wrap = wrap_of(n, width) as nat;
    assert(spacing_of(n, width) as nat == wrap + 2);
    lemma_lines_align(v[0], wrap, '=');
}

/// Appends one cell of a line.
fn push_segment(out: &mut Vec<char>, c: &Vec<char>, wrap: usize)
    requires
        wrap < usize::MAX,
    ensures
        final(out)@ == old(out)@ + segment(c@, wrap as nat),
{
    out.push(' ');
    push_all(out, c);
    let pad: usize = if c.len() <= wrap + 1 {
        wrap + 1 - c.len()
    } else {
        0
    };
    push_repeat(out, ' ', pad);
    out.push('|');
    proof {
        assert(final(out)@ =~= old(out)@ + segment(c@, wrap as nat));
    }
}

/// Lays out one line of cells.
fn create_line(input: &Vec<Vec<char>>, wrap_space: usize) -> (r: Vec<char>)
    requires
        wrap_space < usize::MAX,
    ensures
        r@ == line_of(views(input@), wrap_space as nat),
{
    let ghost cells = views(input@);
    let mut line: Vec<char> = Vec::new();
    line.push('|');
    let mut j: usize = 0;
    while j < input.len()
        invariant
            j <= input@.len(),
            wrap_space < usize::MAX,
            cells == views(input@),
            line@ == seq!['|'] + segments(cells.subrange(0, j as int), wrap_space as nat),
        decreases input@.len() - j,
    {
        push_segment(&mut line, &input[j], wrap_space);
        proof {
            assert(cells.subrange(0, j + 1).drop_last() =~= cells.subrange(0, j as int));
        }
        j += 1;
        proof {
            assert(line@ =~= seq!['|'] + segments(cells.subrange(0, j as int), wrap_space as nat));
        }
    }
    line.push('\n');
    proof {
        assert(cells.subrange(0, input@.len() as int) =~= cells);
        assert(line@ =~= line_of(cells, wrap_space as nat));
    }
    line
}

/// Lays out line `k` of a row whose cells were wrapped into `cols`.
fn line_at(cols: &Vec<Vec<Vec<char>>>, k: usize, wrap_space: usize) -> (r: Vec<char>)
    requires
        wrap_space < usize::MAX,
    ensures
        r@ == line_of(line_cells(nested_views(cols@), k as int), wrap_space as nat),
{
    let ghost cells = line_cells(nested_views(cols@), k as int);
    let empty: Vec<char> = Vec::new();
    let mut line: Vec<char> = Vec::new();
    line.push('|');
    let mut j: usize = 0;
    while j < cols.len()
        invariant
            j <= cols@.len(),
            wrap_space < usize::MAX,
            empty@ == Seq::<char>::empty(),
            cells == line_cells(nested_views(cols@), k as int),
            line@ == seq!['|'] + segments(cells.subrange(0, j as int), wrap_space as nat),
        decreases cols@.len() - j,
    {
        let col = &cols[j];
        if k < col.len() {
            push_segment(&mut line, &col[k], wrap_space);
        } else {
            push_segment(&mut line, &empty, wrap_space);
        }
        proof {
            assert(cells.subrange(0, j + 1).drop_last() =~= cells.subrange(0, j as int));
        }
        j += 1;
        proof {
            assert(line@ =~= seq!['|'] + segments(cells.subrange(0, j as int), wrap_space as nat));
        }
    }
    line.push('\n');
    proof {
        assert(cells.subrange(0, cols@.len() as int) =~= cells);
        assert(line@ =~= line_of(cells, wrap_space as nat));
    }
    line
}

/// What each nested vector of characters holds.
pub open spec fn nested_views(v: Seq<Vec<Vec<char>>>) -> Seq<Seq<Seq<char>>> {
    v.map_values(|c: Vec<Vec<char>>| views(c@))
}

/// A border line of `n` columns.
fn border_line(n: usize, spacing: usize, fill: char) -> (r: Vec<char>)
    ensures
        r@ == border(n as nat, spacing as nat, fill),
{
    let mut line: Vec<char> = Vec::new();
    line.push('+');
    let mut j: usize = 0;
    while j < n
        invariant
            j <= n,
            line@ == seq!['+'] + border_cols(j as nat, spacing as nat, fill),
        decreases n - j,
    {
        push_repeat(&mut line, fill, spacing);
        line.push('+');
        j += 1;
        proof {
            assert(line@ =~= seq!['+'] + border_cols(j as nat, spacing as nat, fill));
        }
    }
    line.push('\n');
    proof {
        assert(line@ =~= border(n as nat, spacing as nat, fill));
    }
    line
}


/// The lines of one data row, each cell wrapped to `wrap_space` columns.
fn row_lines(row: &Vec<String>, wrap_space: usize) -> (r: Vec<char>)
    requires
        wrap_space < usize::MAX,
    ensures
        r@ == ({
            let cols = wrapped_row(row.deep_view(), wrap_space as nat);
            stacked(cols, wrap_space as nat, tallest(cols))
        }),
{
    let ghost all = wrapped_row(row.deep_view(), wrap_space as nat);
    let mut cols: Vec<Vec<Vec<char>>> = Vec::new();
    let mut height: usize = 1;
    let mut j: usize = 0;
    while j < row.len()
        invariant
            j <= row@.len(),
            all == wrapped_row(row.deep_view(), wrap_space as nat),
            nested_views(cols@) == all.subrange(0, j as int),
            height == tallest(all.subrange(0, j as int)),
        decreases row@.len() - j,
    {
        let text = fill_text(&row[j], wrap_space);
        let chars = chars_of(&text);
        let lines = split_lines(&chars);
        if lines.len() > height {
            height = lines.len();
        }
        let ghost before = cols@;
        cols.push(lines);
        proof {
            assert(all.subrange(0, j + 1).drop_last() =~= all.subrange(0, j as int));
            assert(nested_views(cols@) =~= all.subrange(0, j + 1));
        }
        j += 1;
    }
    proof {
        assert(all.subrange(0, row@.len() as int) =~= all);
    }
    let mut out: Vec<char> = Vec::new();
    let mut k: usize = 0;
    while k < height
        invariant
            k <= height,
            wrap_space < usize::MAX,
            nested_views(cols@) == all,
            out@ == stacked(all, wrap_space as nat, k as nat),
        decreases height - k,
    {
        let line = line_at(&cols, k, wrap_space);
        push_all(&mut out, &line);
        k += 1;
    }
    out
}

/// The characters of each cell of `row`.
fn cells_chars(row: &Vec<String>) -> (r: Vec<Vec<char>>)
    ensures
        views(r@) == row.deep_view(),
{
    let mut r: Vec<Vec<char>> = Vec::new();
    let mut j: usize = 0;
    while j < row.len()
        invariant
            j <= row@.len(),
            views(r@) == row.deep_view().subrange(0, j as int),
        decreases row@.len() - j,
    {
        let ghost before = r@;
        let c = chars_of(&row[j]);
        r.push(c);
        proof {
            assert(views(r@) =~= views(before).push(c@));
            assert(row.deep_view().subrange(0, j + 1) =~= row.deep_view().subrange(0, j as int).push(row@[j as int]@));
        }
        j += 1;
        proof {
            assert(views(r@) =~= row.deep_view().subrange(0, j as int));
        }
    }
    proof {
        assert(row.deep_view().subrange(0, row@.len() as int) =~= row.deep_view());
    }
    r
}

/// The length of the longest cell.
fn longest(cells: &Vec<Vec<char>>) -> (r: usize)
    ensures
        r == max_len(views(cells@)),
{
    let mut m: usize = 0;
    let mut j: usize = 0;
    while j < cells.len()
        invariant
            j <= cells@.len(),
            m == max_len(views(cells@).subrange(0, j as int)),
        decreases cells@.len() - j,
    {
        if cells[j].len() > m {
            m = cells[j].len();
        }
        proof {
            assert(views(cells@).subrange(0, j + 1).drop_last() =~= views(cells@).subrange(0, j as int));
        }
        j += 1;
    }
    proof {
        assert(views(cells@).subrange(0, cells@.len() as int) =~= views(cells@));
    }
    m
}

impl Table {
    /// Lays the table out as a bordered grid `width` columns wide, or fails
    /// with `NotEnoughCols` when even the narrowest grid does not fit.
    pub fn pretty_table_at(&self, width: usize) -> (r: Result<String, TableError>)
        requires
            self.wf(),
            self@[0].len() > 0,
        ensures
            fits(max_len(self@[0]), self@[0].len(), width as nat) <==> r is Ok,
            r is Ok ==> r->Ok_0@ == pretty_text(self@, width as nat),
            r is Err ==> r->Err_0 == TableError::NotEnoughCols,
    {
        proof {
            self.lemma_grid();
        }
        let rows = self.rows();
        let ghost v = self@;
        let n = self.num_cols();
        let headers = cells_chars(&rows[0]);
        let m = longest(&headers);
        proof {
            assert(views(headers@) == v[0]);
            lemma_fits_iff(m as nat, n as nat, width as nat);
        }
        if width == 0 {
            return Err(TableError::NotEnoughCols);
        }
        let q = (width - 1) / n;
        if q < 3 || m > q - 3 {
            return Err(TableError::NotEnoughCols);
        }
        proof {
            lemma_spacing(m as nat, n as nat, width as nat);
            lemma_widest_fit(m as nat, n as nat, width as nat);
        }
        let total = q * n + 1;
        let spacing = total / n - 1;
        let wrap_space = spacing - 2;
        let mut out: Vec<char> = Vec::new();
        let heavy = border_line(n, spacing, '=');
        push_all(&mut out, &heavy);
        let head = create_line(&headers, wrap_space);
        push_all(&mut out, &head);
        push_all(&mut out, &heavy);
        let light = border_line(n, spacing, '-');
        let ghost top = out@;
        let ghost data = v.drop_first();
        let mut i: usize = 1;
        while i < rows.len()
            invariant
                1 <= i <= rows@.len(),
                rows.deep_view() == v,
                is_grid(v),
                n == v[0].len(),
                data == v.drop_first(),
                wrap_space < usize::MAX,
                light@ == border(n as nat, spacing as nat, '-'),
                out@ == top + blocks(data.subrange(0, i - 1), wrap_space as nat, spacing as nat),
            decreases rows@.len() - i,
        {
            let body = row_lines(&rows[i], wrap_space);
            push_all(&mut out, &body);
            push_all(&mut out, &light);
            proof {
                assert(data.subrange(0, i as int).drop_last() =~= data.subrange(0, i - 1));
                assert(data.subrange(0, i as int).last() == v[i as int]);
                assert(rows@[i as int].deep_view() == v[i as int]);
                assert(v[i as int].len() == n);
            }
            i += 1;
        }
        proof {
            assert(data.subrange(0, rows@.len() - 1) =~= data);
        }
        Ok(string_from_chars(&out))
    }

    /// Lays the table out as a bordered grid for `width` columns, or, when
    /// none is given, for the terminal's width, else for `DEFAULT_WIDTH`.
    pub fn output_pretty_table(&self, width: Option<usize>) -> (r: Result<String, TableError>)
        requires
            self.wf(),
            self@[0].len() > 0,
        ensures
            width is Some ==> ({
                let w = width->Some_0 as nat;
                &&& fits(max_len(self@[0]), self@[0].len(), w) <==> r is Ok
                &&& r is Ok ==> r->Ok_0@ == pretty_text(self@, w)
            }),
            width is None ==> exists|w: nat|
                #![trigger pretty_text(self@, w)]
                {
                    &&& fits(max_len(self@[0]), self@[0].len(), w) <==> r is Ok
                    &&& r is Ok ==> r->Ok_0@ == pretty_text(self@, w)
                },
            r is Err ==> r->Err_0 == TableError::NotEnoughCols,
    {
        let term_cols: usize = match width {
            Some(w) => w,
            None => match terminal_cols() {
                Some(c) => c as usize,
                None => DEFAULT_WIDTH,
            },
        };
        let r = self.pretty_table_at(term_cols);
        proof {
            assert(pretty_text(self@, term_cols as nat) == pretty_text(self@, term_cols as nat));
        }
        r
    }
}

} // verus!
