//! The record parser: from the lines of the data file to rows, each with
//! the index of the line it came from.
use vstd::prelude::*;
use crate::errors::ProgramError;
use crate::fields::{fields_of, line_of, lemma_join_of_split, split_fields};

verus! {

/// Whether `fields` make a row of `n` columns: exactly `n` fields, of which
/// at least one is not empty.
pub open spec fn is_row(fields: Seq<Seq<char>>, n: nat) -> bool {
    fields.len() == n && exists|j: int| 0 <= j < fields.len() && (#[trigger] fields[j]).len() > 0
}

/// The lines that could be read as text, in their order. A line that could
/// not is `None` and is left out.
pub open spec fn decoded(raw: Seq<Option<Seq<char>>>) -> Seq<Seq<char>> {
    raw.filter_map(|line: Option<Seq<char>>| line)
}

/// The rows of `lines`: for each line whose fields make a row of `n`
/// columns, the line's index and its fields, in the order of the lines.
pub open spec fn rows_of(lines: Seq<Seq<char>>, n: nat) -> Seq<(usize, Seq<Seq<char>>)>
    decreases lines.len(),
{
    if lines.len() == 0 {
        Seq::empty()
    } else {
        let before = rows_of(lines.drop_last(), n);
        let fields = fields_of(lines.last());
        if is_row(fields, n) {
            before.push(((lines.len() - 1) as usize, fields))
        } else {
            before
        }
    }
}

/// The rows that a file with the lines `raw` holds.
pub open spec fn parsed(raw: Seq<Option<Seq<char>>>, n: nat) -> Seq<(usize, Seq<Seq<char>>)> {
    rows_of(decoded(raw), n)
}

/// The lines as a reader hands them on when each could be read as text.
pub open spec fn as_read(lines: Seq<Seq<char>>) -> Seq<Option<Seq<char>>> {
    Seq::new(lines.len(), |i: int| Some(lines[i]))
}

/// Every row of a parse holds the index of a line and the fields of that
/// line, which make a row and, joined, are the line again. The rows stand in
/// the order of their lines.
pub proof fn lemma_rows_of_shape(lines: Seq<Seq<char>>, n: nat)
    requires
        lines.len() <= usize::MAX,
    ensures
        rows_of(lines, n).len() <= lines.len(),
        forall|k: int|
            0 <= k < rows_of(lines, n).len() ==> {
                let row = #[trigger] rows_of(lines, n)[k];
                &&& row.0 < lines.len()
                &&& row.1 == fields_of(lines[row.0 as int])
                &&& is_row(row.1, n)
                &&& line_of(row.1) == lines[row.0 as int]
            },
        forall|j: int, k: int|
            0 <= j < k < rows_of(lines, n).len() ==> (#[trigger] rows_of(lines, n)[j]).0 < (
            #[trigger] rows_of(lines, n)[k]).0,
    decreases lines.len(),
{
    if lines.len() > 0 {
        lemma_rows_of_shape(lines.drop_last(), n);
        lemma_join_of_split(lines.last());
    }
}

/// A parse leaves out no line that makes a row.
pub proof fn lemma_rows_of_complete(lines: Seq<Seq<char>>, n: nat, i: int)
    requires
        lines.len() <= usize::MAX,
        0 <= i < lines.len(),
        is_row(fields_of(lines[i]), n),
    ensures
        exists|k: int| 0 <= k < rows_of(lines, n).len() && (#[trigger] rows_of(lines, n)[k]).0 == i,
    decreases lines.len(),
{
    let rows = rows_of(lines, n);
    if i == lines.len() - 1 {
        assert(rows[rows.len() - 1].0 == i);
    } else {
        let before = rows_of(lines.drop_last(), n);
        lemma_rows_of_complete(lines.drop_last(), n, i);
        let k = choose|k: int| 0 <= k < before.len() && (#[trigger] before[k]).0 == i;
        assert(rows[k] == before[k]);
    }
}

/// Where every line makes a row, a parse keeps every line, each under its
/// own index.
pub proof fn lemma_rows_of_well_formed(lines: Seq<Seq<char>>, n: nat)
    requires
        lines.len() <= usize::MAX,
        forall|i: int| 0 <= i < lines.len() ==> is_row(fields_of(#[trigger] lines[i]), n),
    ensures
        rows_of(lines, n).len() == lines.len(),
        forall|i: int|
            0 <= i < lines.len() ==> #[trigger] rows_of(lines, n)[i] == (
                i as usize,
                fields_of(lines[i]),
            ),
    decreases lines.len(),
{
    if lines.len() > 0 {
        lemma_rows_of_well_formed(lines.drop_last(), n);
    }
}

/// There are no more decoded lines than lines.
pub proof fn lemma_decoded_len(raw: Seq<Option<Seq<char>>>)
    ensures
        decoded(raw).len() <= raw.len(),
    decreases raw.len(),
{
    if raw.len() > 0 {
        lemma_decoded_len(raw.drop_last());
    }
}

/// Where every line could be read as text, the decoded lines are the
/// lines.
pub proof fn lemma_decoded_as_read(lines: Seq<Seq<char>>)
    ensures
        decoded(as_read(lines)) == lines,
    decreases lines.len(),
{
    if lines.len() > 0 {
        lemma_decoded_as_read(lines.drop_last());
        assert(as_read(lines).drop_last() =~= as_read(lines.drop_last()));
    }
}

/// Whether `fields` make a row of `num_of_col` columns.
pub fn makes_row(fields: &Vec<String>, num_of_col: usize) -> (r: bool)
    ensures
        r == is_row(fields.deep_view(), num_of_col as nat),
{
    if fields.len() != num_of_col {
        return false;
    }
    let mut j: usize = 0;
    while j < fields.len()
        invariant
            j <= fields.len(),
            fields.len() == num_of_col,
            forall|k: int| 0 <= k < j ==> (#[trigger] fields.deep_view()[k]).len() == 0,
        decreases fields.len() - j,
    {
        if !fields[j].as_str().is_empty() {
            assert(fields.deep_view()[j as int].len() > 0);
            return true;
        }
        j = j + 1;
    }
    false
}

/// Parses the lines of a file into rows of `num_of_col` columns.
///
/// A line that could not be read as text is skipped and not counted. Every
/// other line is split at the commas and counted; it is kept, with its
/// count as index, if it has exactly `num_of_col` fields and at least one of
/// them is not empty.
pub fn map_lines_to_data(lines: &Vec<Option<String>>, num_of_col: usize) -> (data: Vec<
    (usize, Vec<String>),
>)
    ensures
        data.deep_view() == parsed(lines.deep_view(), num_of_col as nat),
{
    let mut data: Vec<(usize, Vec<String>)> = Vec::new();
    let mut index: usize = 0;
    let mut i: usize = 0;
    let ghost raw = lines.deep_view();
    while i < lines.len()
        invariant
            i <= lines.len(),
            raw == lines.deep_view(),
            index == decoded(raw.take(i as int)).len(),
            index <= i,
            data.deep_view() == parsed(raw.take(i as int), num_of_col as nat),
        decreases lines.len() - i,
    {
        assert(raw.take(i + 1).drop_last() =~= raw.take(i as int));
        match &lines[i] {
            Some(line) => {
                let fields = split_fields(line.as_str());
                assert(decoded(raw.take(i + 1)).drop_last() =~= decoded(raw.take(i as int)));
                if makes_row(&fields, num_of_col) {
                    data.push((index, fields));
                }
                index = index + 1;
            },
            None => {},
        }
        i = i + 1;
    }
    assert(raw.take(i as int) =~= raw);
    data
}

/// The rows of a data file, given what reading it brought: `None` if the
/// file could not be opened, else its lines, each `None` if it could not be
/// read as text.
pub fn read_data(source: &Option<Vec<Option<String>>>, total_num_cols: usize) -> (r: Result<
    Vec<(usize, Vec<String>)>,
    ProgramError,
>)
    ensures
        match source {
            Some(lines) => r matches Ok(data) && data.deep_view() == parsed(
                lines.deep_view(),
                total_num_cols as nat,
            ),
            None => r matches Err(e) && e == ProgramError::DataAccessError,
        },
{
    match source {
        Some(lines) => Ok(map_lines_to_data(lines, total_num_cols)),
        None => Err(ProgramError::DataAccessError),
    }
}

} // verus!
