//! Plain-text tables: a dashed rule, a heading row, a rule, the rows, a rule.
//! Each cell is a space, its text left-aligned in the column's width, then ` |`;
//! row values are shortened to the column's width first.
use vstd::prelude::*;

use crate::text::{padded, push_padded, spec_truncate, truncate, views};

verus! {

/// The columns of a table by their views: heading and width.
pub open spec fn col_views(cols: Seq<(String, usize)>) -> Seq<(Seq<char>, nat)> {
    cols.map_values(|c: (String, usize)| (c.0@, c.1 as nat))
}

/// The rows of a table by their views.
pub open spec fn row_views(rows: Seq<Vec<String>>) -> Seq<Seq<Seq<char>>> {
    rows.map_values(|r: Vec<String>| views(r@))
}

/// The width of a table's rule: three characters per column beyond its
/// width, plus one.
pub open spec fn table_width(cols: Seq<(Seq<char>, nat)>) -> nat
    decreases cols.len(),
{
    if cols.len() == 0 {
        1
    } else {
        table_width(cols.drop_last()) + cols.last().1 + 3
    }
}

/// One cell: a space, the text padded to `w`, then ` |`.
pub open spec fn cell(text: Seq<char>, w: nat) -> Seq<char> {
    " "@ + padded(text, w) + " |"@
}

/// The heading row: one cell per column holding its name.
pub open spec fn heading_line(cols: Seq<(Seq<char>, nat)>) -> Seq<char>
    decreases cols.len(),
{
    if cols.len() == 0 {
        Seq::empty()
    } else {
        heading_line(cols.drop_last()) + cell(cols.last().0, cols.last().1)
    }
}

/// The cells of the first `k` values of a row, each shortened to its column's width.
pub open spec fn row_cells(vals: Seq<Seq<char>>, cols: Seq<(Seq<char>, nat)>, k: nat) -> Seq<char>
    decreases k,
{
    if k == 0 {
        Seq::empty()
    } else {
        let j = k - 1;
        row_cells(vals, cols, j as nat) + cell(spec_truncate(vals[j], cols[j].1), cols[j].1)
    }
}

/// A row: one cell for each value that has a column.
pub open spec fn row_line(vals: Seq<Seq<char>>, cols: Seq<(Seq<char>, nat)>) -> Seq<char> {
    row_cells(vals, cols, if vals.len() < cols.len() { vals.len() } else { cols.len() })
}

/// The dashed rule.
pub open spec fn rule(cols: Seq<(Seq<char>, nat)>) -> Seq<char> {
    Seq::new(table_width(cols), |i: int| '-')
}

/// The lines of the table of `rows` under `cols`.
pub open spec fn table_lines(cols: Seq<(Seq<char>, nat)>, rows: Seq<Seq<Seq<char>>>) -> Seq<
    Seq<char>,
> {
    seq![rule(cols), heading_line(cols), rule(cols)] + rows.map_values(
        |r: Seq<Seq<char>>| row_line(r, cols),
    ) + seq![rule(cols)]
}

fn push_cell(out: &mut String, text: &str, w: usize)
    ensures
        final(out)@ == old(out)@ + cell(text@, w as nat),
{
    out.append(" ");
    push_padded(out, text, w);
    out.append(" |");
    proof {
        assert(out@ =~= old(out)@ + cell(text@, w as nat));
    }
}

fn rule_text(cols: &Vec<(String, usize)>) -> (r: String)
    requires
        table_width(col_views(cols@)) <= usize::MAX,
    ensures
        r@ == rule(col_views(cols@)),
{
    let n = cols.len();
    let mut total: usize = 1;
    let mut i: usize = 0;
    while i < n
        invariant
            i <= n,
            n == cols@.len(),
            total == table_width(col_views(cols@.take(i as int))),
            table_width(col_views(cols@)) <= usize::MAX,
        decreases n - i,
    {
        proof {
            assert(col_views(cols@.take(i + 1)).drop_last() =~= col_views(cols@.take(i as int)));
            assert(col_views(cols@.take(i + 1)) =~= col_views(cols@).take(i + 1));
            lemma_width_prefix(col_views(cols@), i + 1);
        }
        total = total + cols[i].1 + 3;
        i = i + 1;
    }
    proof {
        assert(cols@.take(n as int) =~= cols@);
    }
    let mut r = String::new();
    let mut k: usize = 0;
    while k < total
        invariant
            k <= total,
            total == table_width(col_views(cols@)),
            r@ == Seq::new(k as nat, |j: int| '-'),
        decreases total - k,
    {
        r.append("-");
        proof {
            reveal_strlit("-");
            assert(r@ =~= Seq::new((k + 1) as nat, |j: int| '-'));
        }
        k = k + 1;
    }
    r
}

proof fn lemma_width_prefix(cols: Seq<(Seq<char>, nat)>, k: int)
    requires
        0 <= k <= cols.len(),
    ensures
        table_width(cols.take(k)) <= table_width(cols),
    decreases cols.len() - k,
{
    if k < cols.len() {
        lemma_width_prefix(cols, k + 1);
        assert(cols.take(k + 1).drop_last() =~= cols.take(k));
    } else {
        assert(cols.take(k) =~= cols);
    }
}

fn heading_text(cols: &Vec<(String, usize)>) -> (r: String)
    ensures
        r@ == heading_line(col_views(cols@)),
{
    let n = cols.len();
    let mut r = String::new();
    let mut i: usize = 0;
    while i < n
        invariant
            i <= n,
            n == cols@.len(),
            r@ == heading_line(col_views(cols@.take(i as int))),
        decreases n - i,
    {
        proof {
            assert(col_views(cols@.take(i + 1)).drop_last() =~= col_views(cols@.take(i as int)));
        }
        push_cell(&mut r, cols[i].0.as_str(), cols[i].1);
        i = i + 1;
    }
    proof {
        assert(cols@.take(n as int) =~= cols@);
    }
    r
}

fn row_text(vals: &Vec<String>, cols: &Vec<(String, usize)>) -> (r: String)
    ensures
        r@ == row_line(views(vals@), col_views(cols@)),
{
    let k = if vals.len() < cols.len() {
        vals.len()
    } else {
        cols.len()
    };
    let mut r = String::new();
    let mut j: usize = 0;
    while j < k
        invariant
            j <= k,
            k <= vals@.len(),
            k <= cols@.len(),
            r@ == row_cells(views(vals@), col_views(cols@), j as nat),
        decreases k - j,
    {
        let w = cols[j].1;
        let shown = truncate(vals[j].as_str(), w);
        push_cell(&mut r, shown.as_str(), w);
        j = j + 1;
    }
    r
}

/// The lines of a table: rule, headings, rule, one line per row, rule.
pub fn format_table(columns: &Vec<(String, usize)>, rows: &Vec<Vec<String>>) -> (r: Vec<String>)
    requires
        table_width(col_views(columns@)) <= usize::MAX,
    ensures
        views(r@) == table_lines(col_views(columns@), row_views(rows@)),
{
    let sep = rule_text(columns);
    let mut out: Vec<String> = Vec::new();
    out.push(sep.clone());
    out.push(heading_text(columns));
    out.push(sep.clone());
    let n = rows.len();
    let mut i: usize = 0;
    while i < n
        invariant
            i <= n,
            n == rows@.len(),
            sep@ == rule(col_views(columns@)),
            views(out@) == seq![
                rule(col_views(columns@)),
                heading_line(col_views(columns@)),
                rule(col_views(columns@)),
            ] + row_views(rows@.take(i as int)).map_values(
                |r: Seq<Seq<char>>| row_line(r, col_views(columns@)),
            ),
        decreases n - i,
    {
        let line = row_text(&rows[i], columns);
        let ghost before = out@;
        out.push(line);
        proof {
            assert(views(out@) =~= views(before).push(line@));
            assert(row_views(rows@.take(i + 1)).map_values(
                |r: Seq<Seq<char>>| row_line(r, col_views(columns@)),
            ) =~= row_views(rows@.take(i as int)).map_values(
                |r: Seq<Seq<char>>| row_line(r, col_views(columns@)),
            ).push(row_line(views(rows@[i as int]@), col_views(columns@))));
        }
        i = i + 1;
    }
    let ghost before = out@;
    out.push(sep);
    proof {
        assert(rows@.take(n as int) =~= rows@);
        assert(views(out@) =~= views(before).push(sep@));
    }
    out
}

proof fn lemma_cell_len(text: Seq<char>, w: nat)
    requires
        text.len() <= w,
    ensures
        cell(text, w).len() == w + 3,
{
    reveal_strlit(" ");
    reveal_strlit(" |");
}

proof fn lemma_truncate_fits(s: Seq<char>, w: nat)
    ensures
        spec_truncate(s, w).len() <= w,
{
    reveal_strlit("...");
}

/// A row with a value for every column is exactly as wide as the rule,
/// less its final character: the columns of every such row line up.
pub proof fn lemma_row_line_width(vals: Seq<Seq<char>>, cols: Seq<(Seq<char>, nat)>)
    requires
        vals.len() >= cols.len(),
    ensures
        row_line(vals, cols).len() + 1 == table_width(cols),
{
    lemma_row_cells_width(vals, cols, cols.len());
    assert(cols.take(cols.len() as int) =~= cols);
    assert(row_line(vals, cols) == row_cells(vals, cols, cols.len()));
}

proof fn lemma_row_cells_width(vals: Seq<Seq<char>>, cols: Seq<(Seq<char>, nat)>, k: nat)
    requires
        k <= cols.len(),
        k <= vals.len(),
    ensures
        row_cells(vals, cols, k).len() + 1 == table_width(cols.take(k as int)),
    decreases k,
{
    if k == 0 {
    } else {
        let j = (k - 1) as nat;
        lemma_row_cells_width(vals, cols, j);
        lemma_truncate_fits(vals[j as int], cols[j as int].1);
        lemma_cell_len(spec_truncate(vals[j as int], cols[j as int].1), cols[j as int].1);
        assert(cols.take(k as int).drop_last() =~= cols.take(j as int));
    }
    if k == cols.len() {
        assert(cols.take(k as int) =~= cols);
    }
}

/// When every heading fits its column, the heading row is as wide as a full
/// row: headings and values line up.
pub proof fn lemma_heading_line_width(cols: Seq<(Seq<char>, nat)>)
    requires
        forall|i: int| 0 <= i < cols.len() ==> (#[trigger] cols[i]).0.len() <= cols[i].1,
    ensures
        heading_line(cols).len() + 1 == table_width(cols),
    decreases cols.len(),
{
    if cols.len() > 0 {
        let rest = cols.drop_last();
        assert forall|i: int| 0 <= i < rest.len() implies (#[trigger] rest[i]).0.len() <= rest[i].1 by {
            assert(rest[i] == cols[i]);
        }
        lemma_heading_line_width(rest);
        assert(cols.last() == cols[cols.len() - 1]);
        lemma_cell_len(cols.last().0, cols.last().1);
    }
}

/// Where column `k` starts in a heading or row line: the widths of the
/// columns before it, three characters more each.
pub open spec fn col_start(cols: Seq<(Seq<char>, nat)>, k: nat) -> nat
    decreases k,
{
    if k == 0 {
        0
    } else {
        col_start(cols, (k - 1) as nat) + cols[k - 1].1 + 3
    }
}

/// The part of a line that column `k` takes.
pub open spec fn column_text(line: Seq<char>, cols: Seq<(Seq<char>, nat)>, k: nat) -> Seq<char> {
    line.subrange(col_start(cols, k) as int, (col_start(cols, k) + cols[k as int].1 + 3) as int)
}

proof fn lemma_col_start_prefix(cols: Seq<(Seq<char>, nat)>, short: Seq<(Seq<char>, nat)>, k: nat)
    requires
        k <= short.len() <= cols.len(),
        forall|j: int| 0 <= j < short.len() ==> #[trigger] short[j] == cols[j],
    ensures
        col_start(short, k) == col_start(cols, k),
    decreases k,
{
    if k > 0 {
        lemma_col_start_prefix(cols, short, (k - 1) as nat);
        assert(short[k - 1] == cols[k - 1]);
    }
}

proof fn lemma_row_cells_columns(vals: Seq<Seq<char>>, cols: Seq<(Seq<char>, nat)>, m: nat)
    requires
        m <= cols.len(),
        m <= vals.len(),
    ensures
        row_cells(vals, cols, m).len() == col_start(cols, m),
        forall|k: nat|
            k < m ==> #[trigger] column_text(row_cells(vals, cols, m), cols, k) == cell(
                spec_truncate(vals[k as int], cols[k as int].1),
                cols[k as int].1,
            ),
    decreases m,
{
    if m > 0 {
        let j = (m - 1) as nat;
        lemma_row_cells_columns(vals, cols, j);
        let prev = row_cells(vals, cols, j);
        let c = cell(spec_truncate(vals[j as int], cols[j as int].1), cols[j as int].1);
        lemma_truncate_fits(vals[j as int], cols[j as int].1);
        lemma_cell_len(spec_truncate(vals[j as int], cols[j as int].1), cols[j as int].1);
        let line = row_cells(vals, cols, m);
        assert(line == prev + c);
        assert forall|k: nat| k < m implies #[trigger] column_text(line, cols, k) == cell(
            spec_truncate(vals[k as int], cols[k as int].1),
            cols[k as int].1,
        ) by {
            if k < j {
                lemma_col_start_grows(cols, k + 1, j);
                assert(column_text(line, cols, k) =~= column_text(prev, cols, k));
            } else {
                assert(column_text(line, cols, k) =~= c);
            }
        }
    }
}

proof fn lemma_col_start_grows(cols: Seq<(Seq<char>, nat)>, k: nat, m: nat)
    requires
        k <= m,
    ensures
        col_start(cols, k) <= col_start(cols, m),
    decreases m - k,
{
    if k < m {
        lemma_col_start_grows(cols, k, (m - 1) as nat);
    }
}

proof fn lemma_cell_len_at_least(text: Seq<char>, w: nat)
    ensures
        cell(text, w).len() >= w + 3,
        text.len() <= w ==> cell(text, w).len() == w + 3,
{
    reveal_strlit(" ");
    reveal_strlit(" |");
}

proof fn lemma_heading_columns(cols: Seq<(Seq<char>, nat)>, m: nat)
    requires
        m <= cols.len(),
        forall|i: int| 0 <= i < m ==> (#[trigger] cols[i]).0.len() <= cols[i].1,
    ensures
        heading_line(cols).len() >= col_start(cols, cols.len()),
        m == cols.len() ==> heading_line(cols).len() == col_start(cols, cols.len()),
        forall|k: nat|
            k < m ==> #[trigger] column_text(heading_line(cols), cols, k) == cell(
                cols[k as int].0,
                cols[k as int].1,
            ),
    decreases cols.len(),
{
    if cols.len() > 0 {
        let rest = cols.drop_last();
        let j = (cols.len() - 1) as nat;
        let m2 = if m < j { m } else { j };
        assert forall|i: int| 0 <= i < m2 implies (#[trigger] rest[i]).0.len() <= rest[i].1 by {
            assert(rest[i] == cols[i]);
        }
        lemma_heading_columns(rest, m2);
        lemma_col_start_prefix(cols, rest, j);
        assert(cols.last() == cols[j as int]);
        lemma_cell_len_at_least(cols.last().0, cols.last().1);
        let prev = heading_line(rest);
        let line = heading_line(cols);
        assert(line == prev + cell(cols.last().0, cols.last().1));
        assert forall|k: nat| k < m implies #[trigger] column_text(line, cols, k) == cell(
            cols[k as int].0,
            cols[k as int].1,
        ) by {
            if k < j {
                lemma_col_start_prefix(cols, rest, k);
                lemma_col_start_prefix(cols, rest, k + 1);
                lemma_col_start_grows(cols, k + 1, j);
                assert(rest[k as int] == cols[k as int]);
                assert(column_text(prev, rest, k) == cell(rest[k as int].0, rest[k as int].1));
                assert(column_text(line, cols, k) =~= column_text(prev, rest, k));
            } else {
                assert(column_text(line, cols, k) =~= cell(cols.last().0, cols.last().1));
            }
        }
    }
}

/// Column `k` of the heading line holds the column's name when it and the
/// headings before it fit their columns; column `k` of the line of row `i`
/// holds that row's `k`-th value, shortened to the column's width.
pub proof fn lemma_table_columns(
    cols: Seq<(Seq<char>, nat)>,
    rows: Seq<Seq<Seq<char>>>,
    i: int,
    k: nat,
)
    requires
        0 <= i < rows.len(),
        k < cols.len(),
        rows[i].len() >= cols.len(),
    ensures
        table_lines(cols, rows).len() == rows.len() + 4,
        (forall|j: int| 0 <= j <= k ==> (#[trigger] cols[j]).0.len() <= cols[j].1) ==> column_text(
            table_lines(cols, rows)[1],
            cols,
            k,
        ) == cell(cols[k as int].0, cols[k as int].1),
        column_text(table_lines(cols, rows)[3 + i], cols, k) == cell(
            spec_truncate(rows[i][k as int], cols[k as int].1),
            cols[k as int].1,
        ),
{
    let lines = table_lines(cols, rows);
    assert(lines[1] == heading_line(cols));
    assert(lines[3 + i] == row_line(rows[i], cols));
    if forall|j: int| 0 <= j <= k ==> (#[trigger] cols[j]).0.len() <= cols[j].1 {
        lemma_heading_columns(cols, k + 1);
    }
    lemma_row_cells_columns(rows[i], cols, cols.len());
    assert(row_line(rows[i], cols) == row_cells(rows[i], cols, cols.len()));
}

} // verus!
