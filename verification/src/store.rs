//! The record store: the rows of one parse, first the header, then the
//! entries, with the lookups over the entries and the next identifier.
use vstd::prelude::*;
use vstd::string::StringExecFns;
use crate::config::ID_IDX;
use crate::errors::{ErrorView, ProgramError};
use crate::number::{id_of, parse_id};
use crate::text::{contains, is_substring, same_text};

verus! {

/// How a query is held against a field.
#[derive(Clone, Copy, Debug, PartialEq, Eq, Structural)]
pub enum MatchMode {
    /// The field equals the query.
    Exact,
    /// The query occurs somewhere in the field.
    Contains,
}

/// Whether the field of `row` in column `col` meets `query`. A row without
/// that column meets no query.
pub open spec fn cell_matches(row: Seq<Seq<char>>, col: int, query: Seq<char>, mode: MatchMode)
    -> bool {
    0 <= col < row.len() && match mode {
        MatchMode::Exact => row[col] == query,
        MatchMode::Contains => is_substring(query, row[col]),
    }
}

/// The header of a table: its first row, or no fields where it has no row.
pub open spec fn header_of(table: Seq<Seq<Seq<char>>>) -> Seq<Seq<char>> {
    if table.len() == 0 {
        Seq::empty()
    } else {
        table[0]
    }
}

/// The entries of a table: its rows but the first.
pub open spec fn entries_of(table: Seq<Seq<Seq<char>>>) -> Seq<Seq<Seq<char>>> {
    if table.len() == 0 {
        table
    } else {
        table.skip(1)
    }
}

/// The test that a row passes when its field in column `col` meets `query`.
pub open spec fn meets(col: int, query: Seq<char>, mode: MatchMode) -> spec_fn(
    Seq<Seq<char>>,
) -> bool {
    |row: Seq<Seq<char>>| cell_matches(row, col, query, mode)
}

/// The rows among `rows` whose field in column `col` meets `query`, in
/// their order.
pub open spec fn matching(
    rows: Seq<Seq<Seq<char>>>,
    col: int,
    query: Seq<char>,
    mode: MatchMode,
) -> Seq<Seq<Seq<char>>> {
    rows.filter(meets(col, query, mode))
}

/// The rows of a parse without their line indices.
pub open spec fn table_of(rows: Seq<(usize, Seq<Seq<char>>)>) -> Seq<Seq<Seq<char>>> {
    Seq::new(rows.len(), |i: int| rows[i].1)
}

/// The identifier for the next entry: one more than the identifier in the
/// first field of the last entry. There is none where the table has no
/// entry, or where that field does not stand for an identifier.
pub open spec fn next_id_of(table: Seq<Seq<Seq<char>>>) -> Option<int> {
    let entries = entries_of(table);
    if entries.len() == 0 || entries.last().len() <= ID_IDX {
        None
    } else {
        match id_of(entries.last()[ID_IDX as int]) {
            Some(id) => Some(id + 1),
            None => None,
        }
    }
}

/// The text of the error for an identifier that cannot be computed.
pub open spec fn parse_failure() -> ErrorView {
    ErrorView::CustomError { val: "Couldn't parse id"@ }
}

/// Whether the field of `row` in column `col_idx` meets `query`.
pub fn row_matches(row: &Vec<String>, col_idx: usize, query: &str, mode: MatchMode) -> (r: bool)
    ensures
        r == cell_matches(row.deep_view(), col_idx as int, query@, mode),
{
    if col_idx >= row.len() {
        return false;
    }
    match mode {
        MatchMode::Exact => same_text(&row[col_idx], query),
        MatchMode::Contains => contains(row[col_idx].as_str(), query),
    }
}

/// A copy of `row`.
pub fn copy_row(row: &Vec<String>) -> (out: Vec<String>)
    ensures
        out.deep_view() == row.deep_view(),
{
    let mut out: Vec<String> = Vec::new();
    let mut i: usize = 0;
    while i < row.len()
        invariant
            i <= row.len(),
            out.len() == i,
            forall|k: int| 0 <= k < i ==> out[k]@ == row[k]@,
        decreases row.len() - i,
    {
        out.push(row[i].clone());
        i = i + 1;
    }
    out
}

/// The rows of a parse without their line indices.
pub fn strip_indices(rows: &Vec<(usize, Vec<String>)>) -> (table: Vec<Vec<String>>)
    ensures
        table.deep_view() == table_of(rows.deep_view()),
{
    let mut table: Vec<Vec<String>> = Vec::new();
    let mut i: usize = 0;
    while i < rows.len()
        invariant
            i <= rows.len(),
            table.len() == i,
            forall|k: int| 0 <= k < i ==> table[k].deep_view() == rows[k].1.deep_view(),
        decreases rows.len() - i,
    {
        table.push(copy_row(&rows[i].1));
        i = i + 1;
    }
    table
}

/// Finds the first entry of `data` whose field in column `col_idx` equals
/// `query`. The first row of `data` is its header and is not searched.
pub fn find_one(data: &Vec<Vec<String>>, col_idx: usize, query: &str) -> (r: Result<
    Vec<String>,
    ProgramError,
>)
    ensures
        ({
            let found = matching(
                entries_of(data.deep_view()),
                col_idx as int,
                query@,
                MatchMode::Exact,
            );
            match r {
                Ok(row) => found.len() > 0 && row.deep_view() == found[0],
                Err(e) => found.len() == 0 && e == ProgramError::EntryNotFoundError,
            }
        }),
{
    if data.len() == 0 {
        return Err(ProgramError::EntryNotFoundError);
    }
    let ghost entries = entries_of(data.deep_view());
    let mut i: usize = 1;
    while i < data.len()
        invariant
            1 <= i <= data.len(),
            entries == entries_of(data.deep_view()),
            matching(entries.take(i - 1), col_idx as int, query@, MatchMode::Exact).len() == 0,
        decreases data.len() - i,
    {
        proof {
            reveal(Seq::filter);
            assert(entries.take(i as int).drop_last() =~= entries.take(i - 1));
        }
        if row_matches(&data[i], col_idx, query, MatchMode::Exact) {
            proof {
                assert(entries.take(i as int) + entries.skip(i as int) =~= entries);
            }
            return Ok(copy_row(&data[i]));
        }
        i = i + 1;
    }
    assert(entries.take(data.len() - 1) =~= entries);
    Err(ProgramError::EntryNotFoundError)
}

/// Finds the entries of `data` whose field in column `col_idx` meets
/// `query`, in their order. The first row of `data` is its header and is not
/// searched. That no entry was found is an error.
pub fn find_many(data: &Vec<Vec<String>>, col_idx: usize, query: &str, mode: MatchMode) -> (r:
    Result<Vec<Vec<String>>, ProgramError>)
    ensures
        ({
            let found = matching(entries_of(data.deep_view()), col_idx as int, query@, mode);
            match r {
                Ok(rows) => found.len() > 0 && rows.deep_view() == found,
                Err(e) => found.len() == 0 && e == ProgramError::EntryNotFoundError,
            }
        }),
{
    if data.len() == 0 {
        return Err(ProgramError::EntryNotFoundError);
    }
    let ghost entries = entries_of(data.deep_view());
    let mut rows: Vec<Vec<String>> = Vec::new();
    let mut i: usize = 1;
    while i < data.len()
        invariant
            1 <= i <= data.len(),
            entries == entries_of(data.deep_view()),
            rows.deep_view() == matching(entries.take(i - 1), col_idx as int, query@, mode),
        decreases data.len() - i,
    {
        proof {
            reveal(Seq::filter);
            assert(entries.take(i as int).drop_last() =~= entries.take(i - 1));
        }
        if row_matches(&data[i], col_idx, query, mode) {
            let row = copy_row(&data[i]);
            rows.push(row);
        }
        i = i + 1;
    }
    assert(entries.take(data.len() - 1) =~= entries);
    if rows.len() == 0 {
        Err(ProgramError::EntryNotFoundError)
    } else {
        Ok(rows)
    }
}

/// The error for an identifier that cannot be computed.
pub fn parse_error() -> (e: ProgramError)
    ensures
        e@ == parse_failure(),
{
    ProgramError::CustomError { val: String::from_str("Couldn't parse id") }
}

/// Computes the identifier for the next entry of `data`: one more than the
/// identifier of its last entry. The first row of `data` is its header.
pub fn next_id(data: &Vec<Vec<String>>) -> (r: Result<i64, ProgramError>)
    ensures
        match r {
            Ok(id) => next_id_of(data.deep_view()) == Some(id as int),
            Err(e) => next_id_of(data.deep_view()) is None && e@ == parse_failure(),
        },
{
    if data.len() < 2 {
        return Err(parse_error());
    }
    let last = &data[data.len() - 1];
    if last.len() <= ID_IDX {
        return Err(parse_error());
    }
    match parse_id(last[ID_IDX].as_str()) {
        Some(id) => Ok(id as i64 + 1),
        None => Err(parse_error()),
    }
}

} // verus!
