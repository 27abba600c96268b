//! Tables: how wide the columns are, and cells that fill them.
use crate::text::{
    byte_len, byte_length, lemma_chars_fit_bytes, lemma_concat_assoc, padding, push_repeated,
    repeated,
};
use vstd::prelude::*;
use vstd::string::StrSliceExecFns;

verus! {

/// The largest of a start value and of the sizes in bytes of the cells in column `i`.
pub open spec fn column_max(rows: Seq<Seq<Seq<char>>>, i: int, start: nat) -> nat
    decreases rows.len(),
{
    if rows.len() == 0 {
        start
    } else {
        let rest = column_max(rows.drop_last(), i, start);
        let row = rows.last();
        if 0 <= i < row.len() && byte_len(row[i]) > rest {
            byte_len(row[i])
        } else {
            rest
        }
    }
}

/// The size of column `i`: that of its largest header or cell in bytes.
pub open spec fn column_size(headers: Seq<Seq<char>>, rows: Seq<Seq<Seq<char>>>, i: int) -> nat {
    column_max(rows, i, byte_len(headers[i]))
}

/// The width of column `i`: its size and two columns of space. A cell beyond the headers gets
/// ten columns.
pub open spec fn column_width(headers: Seq<Seq<char>>, rows: Seq<Seq<Seq<char>>>, i: int) -> nat {
    if i < headers.len() {
        column_size(headers, rows, i) + 2
    } else {
        10
    }
}

/// A text and the spaces that fill a width after it.
pub open spec fn padded(text: Seq<char>, width: nat) -> Seq<char> {
    text + repeated(' ', padding(width, text.len()))
}

/// The sizes of a table's columns.
pub fn column_sizes(headers: &[String], rows: &[Vec<String>]) -> (sizes: Vec<usize>)
    ensures
        sizes@.len() == headers@.len(),
        forall|i: int|
            0 <= i < sizes@.len() ==> #[trigger] sizes@[i] == column_size(
                headers.deep_view(),
                rows.deep_view(),
                i,
            ),
{
    let ghost names = headers.deep_view();
    let ghost all = rows.deep_view();
    let mut sizes: Vec<usize> = Vec::new();
    let mut k: usize = 0;
    while k < headers.len()
        invariant
            k <= headers@.len(),
            names == headers.deep_view(),
            sizes@.len() == k,
            forall|i: int| 0 <= i < k ==> #[trigger] sizes@[i] == byte_len(names[i]),
        decreases headers@.len() - k,
    {
        sizes.push(byte_length(headers[k].as_str()));
        k += 1;
    }
    let mut r: usize = 0;
    while r < rows.len()
        invariant
            r <= rows@.len(),
            names == headers.deep_view(),
            all == rows.deep_view(),
            sizes@.len() == names.len(),
            forall|i: int|
                0 <= i < sizes@.len() ==> #[trigger] sizes@[i] == column_max(
                    all.take(r as int),
                    i,
                    byte_len(names[i]),
                ),
        decreases rows@.len() - r,
    {
        let row = &rows[r];
        let ghost next = all.take(r + 1);
        assert(next.drop_last() =~= all.take(r as int));
        assert(next.last() =~= row.deep_view());
        let mut c: usize = 0;
        while c < row.len() && c < sizes.len()
            invariant
                r < rows@.len(),
                row == rows@[r as int],
                c <= row@.len(),
                c <= sizes@.len(),
                sizes@.len() == names.len(),
                next.len() > 0,
                next.drop_last() == all.take(r as int),
                next.last() == row.deep_view(),
                forall|i: int|
                    0 <= i < c ==> #[trigger] sizes@[i] == column_max(
                        next,
                        i,
                        byte_len(names[i]),
                    ),
                forall|i: int|
                    c <= i < sizes@.len() ==> #[trigger] sizes@[i] == column_max(
                        next.drop_last(),
                        i,
                        byte_len(names[i]),
                    ),
            decreases row@.len() - c,
        {
            let size: usize = byte_length(row[c].as_str());
            if size > sizes[c] {
                sizes.set(c, size);
            }
            c += 1;
        }
        assert forall|i: int| 0 <= i < sizes@.len() implies #[trigger] sizes@[i] == column_max(
            next,
            i,
            byte_len(names[i]),
        ) by {}
        r += 1;
    }
    assert(all.take(all.len() as int) =~= all);
    sizes
}

/// Appends a text and the spaces that fill a width of `size + slack` after it.
pub fn push_padded(out: &mut String, text: &str, size: usize, slack: usize)
    ensures
        final(out)@ == old(out)@ + padded(text@, (size + slack) as nat),
{
    broadcast use lemma_concat_assoc;

    let used: usize = text.unicode_len();
    out.append(text);
    if used <= size {
        push_repeated(out, ' ', size - used);
        push_repeated(out, ' ', slack);
        assert(repeated(' ', (size - used) as nat) + repeated(' ', slack as nat) =~= repeated(
            ' ',
            padding((size + slack) as nat, used as nat),
        ));
    } else if used - size <= slack {
        push_repeated(out, ' ', slack - (used - size));
    } else {
        assert(out@ =~= old(out)@ + padded(text@, (size + slack) as nat));
    }
}

/// The largest size in a column is not less than the start value, nor than that of any cell.
proof fn lemma_column_max(rows: Seq<Seq<Seq<char>>>, i: int, start: nat)
    ensures
        column_max(rows, i, start) >= start,
        forall|r: int|
            0 <= r < rows.len() && 0 <= i < (#[trigger] rows[r]).len() ==> column_max(
                rows,
                i,
                start,
            ) >= byte_len(rows[r][i]),
    decreases rows.len(),
{
    if rows.len() > 0 {
        let rest = rows.drop_last();
        lemma_column_max(rest, i, start);
        assert forall|r: int|
            0 <= r < rows.len() && 0 <= i < (#[trigger] rows[r]).len() implies column_max(
            rows,
            i,
            start,
        ) >= byte_len(rows[r][i]) by {
            if r < rest.len() {
                assert(rest[r] == rows[r]);
            }
        }
    }
}

/// The columns of a table line up: the header and every cell of a column, padded, have as many
/// characters as the column is wide, and at least two spaces at the end.
pub proof fn law_columns_line_up(headers: Seq<Seq<char>>, rows: Seq<Seq<Seq<char>>>, i: int)
    requires
        0 <= i < headers.len(),
    ensures
        padded(headers[i], column_width(headers, rows, i)).len() == column_width(headers, rows, i),
        headers[i].len() + 2 <= column_width(headers, rows, i),
        forall|r: int|
            0 <= r < rows.len() && i < (#[trigger] rows[r]).len() ==> {
                &&& padded(rows[r][i], column_width(headers, rows, i)).len() == column_width(
                    headers,
                    rows,
                    i,
                )
                &&& rows[r][i].len() + 2 <= column_width(headers, rows, i)
            },
{
    lemma_column_max(rows, i, byte_len(headers[i]));
    lemma_chars_fit_bytes(headers[i]);
    assert forall|r: int| 0 <= r < rows.len() && i < (#[trigger] rows[r]).len() implies {
        &&& padded(rows[r][i], column_width(headers, rows, i)).len() == column_width(
            headers,
            rows,
            i,
        )
        &&& rows[r][i].len() + 2 <= column_width(headers, rows, i)
    } by {
        lemma_chars_fit_bytes(rows[r][i]);
    }
}

/// A column is as wide as its largest header or cell in bytes, and two more; ten for cells beyond
/// the headers.
pub proof fn law_column_is_as_wide_as_its_largest_cell(
    headers: Seq<Seq<char>>,
    rows: Seq<Seq<Seq<char>>>,
    i: int,
)
    requires
        0 <= i,
    ensures
        i >= headers.len() ==> column_width(headers, rows, i) == 10,
        i < headers.len() ==> {
            ||| column_width(headers, rows, i) == byte_len(headers[i]) + 2
            ||| exists|r: int|
                0 <= r < rows.len() && i < (#[trigger] rows[r]).len() && column_width(
                    headers,
                    rows,
                    i,
                ) == byte_len(rows[r][i]) + 2
        },
        i < headers.len() ==> column_width(headers, rows, i) >= byte_len(headers[i]) + 2,
        i < headers.len() ==> forall|r: int|
            0 <= r < rows.len() && i < (#[trigger] rows[r]).len() ==> column_width(headers, rows, i)
                >= byte_len(rows[r][i]) + 2,
{
    if i < headers.len() {
        lemma_column_max(rows, i, byte_len(headers[i]));
        lemma_column_max_is_met(rows, i, byte_len(headers[i]));
    }
}

/// The largest size in a column is the start value or that of a cell.
proof fn lemma_column_max_is_met(rows: Seq<Seq<Seq<char>>>, i: int, start: nat)
    requires
        0 <= i,
    ensures
        column_max(rows, i, start) == start || exists|r: int|
            0 <= r < rows.len() && i < (#[trigger] rows[r]).len() && column_max(rows, i, start)
                == byte_len(rows[r][i]),
    decreases rows.len(),
{
    if rows.len() > 0 {
        let rest = rows.drop_last();
        lemma_column_max_is_met(rest, i, start);
        let row = rows.last();
        if i < row.len() && byte_len(row[i]) > column_max(rest, i, start) {
            assert(rows[rows.len() - 1] == row);
        } else if column_max(rest, i, start) != start {
            let r = choose|r: int|
                0 <= r < rest.len() && i < (#[trigger] rest[r]).len() && column_max(rest, i, start)
                    == byte_len(rest[r][i]);
            assert(rows[r] == rest[r]);
        }
    }
}

/// A cell is its text and, behind it, spaces alone; nothing is cut off.
pub proof fn law_cell_is_its_text_and_spaces(text: Seq<char>, width: nat)
    ensures
        padded(text, width).take(text.len() as int) == text,
        padded(text, width).len() == if text.len() <= width {
            width
        } else {
            text.len()
        },
        forall|i: int|
            text.len() <= i < padded(text, width).len() ==> #[trigger] padded(text, width)[i]
                == ' ',
{
    assert(padded(text, width).take(text.len() as int) =~= text);
}

} // verus!
