//! Aligned text columns.

use vstd::prelude::*;

use crate::text::{chars_of, is_ws, lemma_trim_end_ws, string_of, trim_end_ws, views};

verus! {

/// The cells of each row, as character sequences.
pub open spec fn cell_views<const N: usize>(rows: Seq<[String; N]>) -> Seq<Seq<Seq<char>>> {
    rows.map_values(|r: [String; N]| views(r@))
}

/// The width of column `c`: its longest cell, in characters.
pub open spec fn column_width(rows: Seq<Seq<Seq<char>>>, c: int) -> nat
    decreases rows.len(),
{
    if rows.len() == 0 {
        0
    } else {
        let w = column_width(rows.drop_last(), c);
        let l = rows.last()[c].len();
        if l > w {
            l
        } else {
            w
        }
    }
}

/// `n` spaces.
pub open spec fn spaces(n: int) -> Seq<char> {
    Seq::new(if n > 0 { n as nat } else { 0 }, |i: int| ' ')
}

/// The cells `row[..k]`, each padded to its column's width plus two.
pub open spec fn padded(row: Seq<Seq<char>>, rows: Seq<Seq<Seq<char>>>, k: int) -> Seq<char>
    decreases k,
{
    if k <= 0 {
        Seq::<char>::empty()
    } else {
        padded(row, rows, k - 1) + row[k - 1] + spaces(
            column_width(rows, k - 1) + 2 - row[k - 1].len(),
        )
    }
}

/// The rendered line of `row`: padded cells with trailing whitespace trimmed.
pub open spec fn rendered_line(row: Seq<Seq<char>>, rows: Seq<Seq<Seq<char>>>) -> Seq<char> {
    trim_end_ws(padded(row, rows, row.len() as int))
}

proof fn lemma_width_grows(rows: Seq<Seq<Seq<char>>>, c: int, i: int)
    requires
        0 <= i < rows.len(),
    ensures
        rows[i][c].len() <= column_width(rows, c),
    decreases rows.len(),
{
    if i < rows.len() - 1 {
        lemma_width_grows(rows.drop_last(), c, i);
    }
}

/// Where column `k` starts: the widths of the columns before it, each with
/// its two separating spaces.
pub open spec fn column_start(rows: Seq<Seq<Seq<char>>>, k: int) -> nat
    decreases k,
{
    if k <= 0 {
        0
    } else {
        column_start(rows, k - 1) + column_width(rows, k - 1) + 2
    }
}

/// Columns align: in every row, cell `k` starts at the same offset, that of
/// its column; the rendered line is the padded one with only trailing
/// whitespace dropped.
pub proof fn lemma_columns_align(rows: Seq<Seq<Seq<char>>>, i: int, k: int)
    requires
        0 <= i < rows.len(),
        0 <= k < rows[i].len(),
    ensures
        padded(rows[i], rows, k).len() == column_start(rows, k),
        padded(rows[i], rows, k + 1).subrange(
            column_start(rows, k) as int,
            column_start(rows, k) as int + rows[i][k].len(),
        ) == rows[i][k],
        ({
            let full = padded(rows[i], rows, rows[i].len() as int);
            let line = rendered_line(rows[i], rows);
            &&& line.len() <= full.len()
            &&& line == full.subrange(0, line.len() as int)
            &&& forall|j: int| line.len() <= j < full.len() ==> is_ws(#[trigger] full[j])
        }),
    decreases k,
{
    let row = rows[i];
    if k > 0 {
        lemma_columns_align(rows, i, k - 1);
        lemma_width_grows(rows, k - 1, i);
    }
    let start = column_start(rows, k) as int;
    let p = padded(row, rows, k + 1);
    assert(p == padded(row, rows, k) + row[k] + spaces(column_width(rows, k) + 2 - row[k].len()));
    assert(p.subrange(start, start + row[k].len()) =~= row[k]);
    lemma_trim_end_ws(padded(row, rows, row.len() as int));
}

/// Renders rows as aligned columns separated by two spaces, with trailing
/// whitespace trimmed. Widths count chars, not bytes, so non-ASCII names
/// don't skew the columns.
pub fn columns<const N: usize>(rows: &[[String; N]]) -> (r: Vec<String>)
    ensures
        r@.len() == rows@.len(),
        forall|i: int|
            0 <= i < rows@.len() ==> #[trigger] r@[i]@ == rendered_line(
                cell_views(rows@)[i],
                cell_views(rows@),
            ),
{
    let ghost all = cell_views(rows@);
    let mut widths: Vec<usize> = Vec::new();
    let mut c: usize = 0;
    while c < N
        invariant
            c <= N,
            widths@.len() == c,
            forall|k: int| 0 <= k < c ==> widths@[k] == 0,
        decreases N - c,
    {
        widths.push(0);
        c = c + 1;
    }
    let mut i: usize = 0;
    while i < rows.len()
        invariant
            i <= rows@.len(),
            all == cell_views(rows@),
            widths@.len() == N,
            forall|k: int|
                0 <= k < N ==> widths@[k] == column_width(all.subrange(0, i as int), k),
        decreases rows@.len() - i,
    {
        let ghost pre = all.subrange(0, i + 1);
        assert(pre.drop_last() =~= all.subrange(0, i as int));
        let mut c: usize = 0;
        while c < N
            invariant
                c <= N,
                i < rows@.len(),
                pre == all.subrange(0, i + 1),
                pre.drop_last() == all.subrange(0, i as int),
                all == cell_views(rows@),
                widths@.len() == N,
                forall|k: int|
                    0 <= k < c ==> widths@[k] == column_width(pre, k),
                forall|k: int|
                    c <= k < N ==> widths@[k] == column_width(all.subrange(0, i as int), k),
            decreases N - c,
        {
            let cell = chars_of(rows[i][c].as_str());
            assert(pre.last()[c as int] == cell@);
            if cell.len() > widths[c] {
                widths.set(c, cell.len());
            }
            c = c + 1;
        }
        i = i + 1;
    }
    assert(all.subrange(0, i as int) =~= all);
    let mut out: Vec<String> = Vec::new();
    let mut i: usize = 0;
    while i < rows.len()
        invariant
            i <= rows@.len(),
            all == cell_views(rows@),
            widths@.len() == N,
            forall|k: int| 0 <= k < N ==> widths@[k] == column_width(all, k),
            out@.len() == i,
            forall|j: int| 0 <= j < i ==> #[trigger] out@[j]@ == rendered_line(all[j], all),
        decreases rows@.len() - i,
    {
        let mut line: Vec<char> = Vec::new();
        let ghost row = all[i as int];
        assert(row.len() == N);
        let mut c: usize = 0;
        while c < N
            invariant
                c <= N,
                i < rows@.len(),
                row == all[i as int],
                row.len() == N,
                all == cell_views(rows@),
                widths@.len() == N,
                forall|k: int| 0 <= k < N ==> widths@[k] == column_width(all, k),
                line@ == padded(row, all, c as int),
            decreases N - c,
        {
            let cell = chars_of(rows[i][c].as_str());
            assert(cell@ == row[c as int]);
            proof {
                lemma_width_grows(all, c as int, i as int);
            }
            let ghost base = line@;
            let mut k: usize = 0;
            while k < cell.len()
                invariant
                    k <= cell@.len(),
                    line@ == base + cell@.subrange(0, k as int),
                decreases cell@.len() - k,
            {
                line.push(cell[k]);
                k = k + 1;
                assert(line@ =~= base + cell@.subrange(0, k as int));
            }
            assert(cell@.subrange(0, cell@.len() as int) =~= cell@);
            let target: u128 = widths[c] as u128 + 2;
            let mut n: u128 = cell.len() as u128;
            let ghost mid = line@;
            while n < target
                invariant
                    cell@.len() <= n <= target,
                    line@ == mid + spaces(n - cell@.len()),
                decreases target - n,
            {
                line.push(' ');
                n = n + 1;
                assert(line@ =~= mid + spaces(n - cell@.len()));
            }
            assert(line@ =~= padded(row, all, c + 1));
            c = c + 1;
        }
        let trimmed = crate::text::trim_end(string_of(line.as_slice()).as_str());
        out.push(trimmed);
        i = i + 1;
    }
    out
}

} // verus!
