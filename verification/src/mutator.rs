//! The mutator: the new content of the data file after an entry is added,
//! edited or removed.
//!
//! An added entry is one more line at the end of the file. An edit or a
//! removal goes through every line of the file in order and passes each on
//! unchanged but the line of the entry, which is replaced or left out. The
//! program writes the result to a scratch file and renames that over the
//! data file, so a mutation that fails leaves the data file as it was.
use vstd::prelude::*;
use crate::config::{EMAIL_IDX, ID_IDX, NAME_IDX};
use crate::errors::{ErrorView, ProgramError};
use crate::fields::{
    delimiter_free,
    fields_of,
    lemma_fields_of_shape,
    lemma_split_of_join,
    line_of,
    record_line,
    split_fields,
};
use crate::number::{
    decimal_string,
    decimal_text,
    lemma_digits_of_value,
    lemma_integer_of_decimal_text,
};
use crate::parser::{
    as_read,
    decoded,
    is_row,
    lemma_decoded_as_read,
    lemma_rows_of_shape,
    parsed,
    rows_of,
};
use crate::store::{
    cell_matches,
    entries_of,
    header_of,
    next_id,
    next_id_of,
    parse_failure,
    row_matches,
    table_of,
    MatchMode,
};

verus! {

/// The line for a new entry with `name` and `email` in `table`: its
/// identifier, the name and the email address. There is none where the
/// table gives no next identifier.
pub open spec fn appended_line(table: Seq<Seq<Seq<char>>>, name: Seq<char>, email: Seq<char>)
    -> Option<Seq<char>> {
    match next_id_of(table) {
        Some(id) => Some(line_of(seq![decimal_text(id), name, email])),
        None => None,
    }
}

/// Whether the row has the identifier `id`.
pub open spec fn has_id(row: (usize, Seq<Seq<char>>), id: Seq<char>) -> bool {
    cell_matches(row.1, ID_IDX as int, id, MatchMode::Exact)
}

/// The place in `rows`, at or after `from`, of the first row whose
/// identifier is `id`.
pub open spec fn first_with_id(rows: Seq<(usize, Seq<Seq<char>>)>, id: Seq<char>, from: nat)
    -> Option<int>
    decreases rows.len() - from,
{
    if from >= rows.len() {
        None
    } else if has_id(rows[from as int], id) {
        Some(from as int)
    } else {
        first_with_id(rows, id, from + 1)
    }
}

/// The place in `rows` of the entry to mutate: the first entry whose
/// identifier is `id`. The first row is the header and is no entry.
pub open spec fn target_of(rows: Seq<(usize, Seq<Seq<char>>)>, id: Seq<char>) -> Option<int> {
    first_with_id(rows, id, 1)
}

/// Whether every line could be read as text.
pub open spec fn all_decoded(raw: Seq<Option<Seq<char>>>) -> bool {
    forall|i: int| 0 <= i < raw.len() ==> (#[trigger] raw[i]) is Some
}

/// The text of every line.
pub open spec fn texts_of(raw: Seq<Option<Seq<char>>>) -> Seq<Seq<char>> {
    Seq::new(raw.len(), |i: int| raw[i]->0)
}

/// `lines` without the line at `at`; all of them where there is no such
/// line.
pub open spec fn without_line(lines: Seq<Seq<char>>, at: int) -> Seq<Seq<char>> {
    if 0 <= at < lines.len() {
        lines.remove(at)
    } else {
        lines
    }
}

/// The value for a field of an edited entry: the one supplied, else the
/// field of `line` in column `col`, if the line has that column.
pub open spec fn field_or(supplied: Option<Seq<char>>, line: Seq<char>, col: int) -> Option<
    Seq<char>,
> {
    match supplied {
        Some(value) => Some(value),
        None => if 0 <= col < fields_of(line).len() {
            Some(fields_of(line)[col])
        } else {
            None
        },
    }
}

/// The line that replaces `line` in an edit: `id`, then the name and the
/// email address, each as supplied or as `line` has it. There is none where
/// a field is neither supplied nor in `line`.
pub open spec fn replacement(
    line: Seq<char>,
    id: Seq<char>,
    name: Option<Seq<char>>,
    email: Option<Seq<char>>,
) -> Option<Seq<char>> {
    match (field_or(name, line, NAME_IDX as int), field_or(email, line, EMAIL_IDX as int)) {
        (Some(n), Some(e)) => Some(line_of(seq![id, n, e])),
        _ => None,
    }
}

/// `lines` with the line at `at` replaced as an edit asks; all of them
/// unchanged where there is no such line.
pub open spec fn with_line_edited(
    lines: Seq<Seq<char>>,
    at: int,
    id: Seq<char>,
    name: Option<Seq<char>>,
    email: Option<Seq<char>>,
) -> Option<Seq<Seq<char>>> {
    if 0 <= at < lines.len() {
        match replacement(lines[at], id, name, email) {
            Some(line) => Some(lines.update(at, line)),
            None => None,
        }
    } else {
        Some(lines)
    }
}

/// The fields of an entry after an edit: `id`, then the name and the email
/// address, each as supplied or as the entry had it.
pub open spec fn edited_fields(
    fields: Seq<Seq<char>>,
    id: Seq<char>,
    name: Option<Seq<char>>,
    email: Option<Seq<char>>,
) -> Seq<Seq<char>> {
    seq![
        id,
        match name {
            Some(value) => value,
            None => fields[NAME_IDX as int],
        },
        match email {
            Some(value) => value,
            None => fields[EMAIL_IDX as int],
        },
    ]
}

/// What removing the entry `id` makes of a file with the lines `raw`, of
/// which `rows` is the parse.
pub open spec fn removal(
    rows: Seq<(usize, Seq<Seq<char>>)>,
    id: Seq<char>,
    raw: Seq<Option<Seq<char>>>,
) -> Result<Seq<Seq<char>>, ErrorView> {
    match target_of(rows, id) {
        None => Err(ErrorView::EntryNotFoundError),
        Some(k) => if all_decoded(raw) {
            Ok(without_line(texts_of(raw), rows[k].0 as int))
        } else {
            Err(ErrorView::DataAccessError)
        },
    }
}

/// What editing the entry `id` makes of a file with the lines `raw`, of
/// which `rows` is the parse.
pub open spec fn edition(
    rows: Seq<(usize, Seq<Seq<char>>)>,
    id: Seq<char>,
    name: Option<Seq<char>>,
    email: Option<Seq<char>>,
    raw: Seq<Option<Seq<char>>>,
) -> Result<Seq<Seq<char>>, ErrorView> {
    match target_of(rows, id) {
        None => Err(ErrorView::EntryNotFoundError),
        Some(k) => if all_decoded(raw) {
            match with_line_edited(texts_of(raw), rows[k].0 as int, id, name, email) {
                Some(lines) => Ok(lines),
                None => Err(ErrorView::DataAccessError),
            }
        } else {
            Err(ErrorView::DataAccessError)
        },
    }
}

/// Makes the line that adds the entry `(name, email)` to `data`, under the
/// next identifier of `data`. The first row of `data` is its header.
pub fn append_entry_to_data(entry: (&str, &str), data: &Vec<Vec<String>>) -> (r: Result<
    String,
    ProgramError,
>)
    ensures
        match r {
            Ok(line) => appended_line(data.deep_view(), entry.0@, entry.1@) == Some(line@),
            Err(e) => appended_line(data.deep_view(), entry.0@, entry.1@) is None && e@
                == parse_failure(),
        },
{
    match next_id(data) {
        Ok(id) => {
            let id_text = decimal_string(id);
            Ok(record_line(id_text.as_str(), entry.0, entry.1))
        },
        Err(e) => Err(e),
    }
}

/// Finds the line of the entry to mutate: the index of the line that the
/// first entry of `data` with the identifier `id` came from.
pub fn locate(data: &Vec<(usize, Vec<String>)>, id: &str) -> (r: Option<usize>)
    ensures
        match r {
            Some(at) => target_of(data.deep_view(), id@) matches Some(k) && at
                == data.deep_view()[k].0,
            None => target_of(data.deep_view(), id@) is None,
        },
{
    let mut i: usize = 1;
    while i < data.len()
        invariant
            1 <= i,
            first_with_id(data.deep_view(), id@, i as nat) == target_of(data.deep_view(), id@),
        decreases data.len() - i,
    {
        if row_matches(&data[i].1, ID_IDX, id, MatchMode::Exact) {
            return Some(data[i].0);
        }
        i = i + 1;
    }
    None
}

/// Removes the entry with the identifier `id`: gives the lines of the file
/// without the line of that entry.
///
/// `data` is the parse of the file and `lines` are its lines as read, each
/// `None` if it could not be read as text. Fails with `EntryNotFoundError`
/// if no entry of `data` has the identifier, else with `DataAccessError` if
/// a line could not be read.
#[verifier::loop_isolation(false)]
pub fn remove(data: &Vec<(usize, Vec<String>)>, id: &str, lines: &Vec<Option<String>>) -> (r:
    Result<Vec<String>, ProgramError>)
    ensures
        match r {
            Ok(out) => removal(data.deep_view(), id@, lines.deep_view()) == Ok::<
                Seq<Seq<char>>,
                ErrorView,
            >(out.deep_view()),
            Err(e) => removal(data.deep_view(), id@, lines.deep_view()) == Err::<
                Seq<Seq<char>>,
                ErrorView,
            >(e@),
        },
{
    let at = match locate(data, id) {
        Some(at) => at,
        None => {
            return Err(ProgramError::EntryNotFoundError);
        },
    };
    let ghost raw = lines.deep_view();
    let ghost texts = texts_of(raw);
    let mut out: Vec<String> = Vec::new();
    let mut i: usize = 0;
    while i < lines.len()
        invariant
            i <= lines.len(),
            raw == lines.deep_view(),
            texts == texts_of(raw),
            forall|k: int| 0 <= k < i ==> (#[trigger] raw[k]) is Some,
            out.len() == (if i > at { i - 1 } else { i as int }),
            forall|k: int|
                0 <= k < out.len() ==> (#[trigger] out[k])@ == texts[if k < at {
                    k
                } else {
                    k + 1
                }],
        decreases lines.len() - i,
    {
        assert(raw[i as int] == lines[i as int].deep_view());
        match &lines[i] {
            Some(line) => {
                if i != at {
                    out.push(line.clone());
                }
            },
            None => {
                return Err(ProgramError::DataAccessError);
            },
        }
        i = i + 1;
    }
    assert(out.deep_view() =~= without_line(texts, at as int));
    Ok(out)
}

/// Edits the entry with the identifier `id`: gives the lines of the file
/// with the line of that entry replaced by `id`, the name and the email
/// address. A field that is not supplied keeps the value that the line has
/// for it, found by splitting the line at the commas.
///
/// `data` is the parse of the file and `lines` are its lines as read, each
/// `None` if it could not be read as text. Fails with `EntryNotFoundError`
/// if no entry of `data` has the identifier, else with `DataAccessError` if
/// a line could not be read or the line of the entry lacks a field that is
/// not supplied.
#[verifier::loop_isolation(false)]
pub fn edit(
    data: &Vec<(usize, Vec<String>)>,
    id: &str,
    name: Option<&str>,
    email: Option<&str>,
    lines: &Vec<Option<String>>,
) -> (r: Result<Vec<String>, ProgramError>)
    ensures
        match r {
            Ok(out) => edition(
                data.deep_view(),
                id@,
                name.deep_view(),
                email.deep_view(),
                lines.deep_view(),
            ) == Ok::<Seq<Seq<char>>, ErrorView>(out.deep_view()),
            Err(e) => edition(
                data.deep_view(),
                id@,
                name.deep_view(),
                email.deep_view(),
                lines.deep_view(),
            ) == Err::<Seq<Seq<char>>, ErrorView>(e@),
        },
{
    let at = match locate(data, id) {
        Some(at) => at,
        None => {
            return Err(ProgramError::EntryNotFoundError);
        },
    };
    let ghost raw = lines.deep_view();
    let ghost texts = texts_of(raw);
    let ghost new_name = name.deep_view();
    let ghost new_email = email.deep_view();
    let mut out: Vec<String> = Vec::new();
    let mut i: usize = 0;
    while i < lines.len()
        invariant
            i <= lines.len(),
            raw == lines.deep_view(),
            texts == texts_of(raw),
            new_name == name.deep_view(),
            new_email == email.deep_view(),
            forall|k: int| 0 <= k < i ==> (#[trigger] raw[k]) is Some,
            out.len() == i,
            forall|k: int| 0 <= k < i && k != at ==> (#[trigger] out[k])@ == texts[k],
            i > at ==> replacement(texts[at as int], id@, new_name, new_email) == Some(
                out[at as int]@,
            ),
        decreases lines.len() - i,
    {
        assert(raw[i as int] == lines[i as int].deep_view());
        match &lines[i] {
            Some(line) => {
                if i != at {
                    out.push(line.clone());
                } else {
                    let fields = split_fields(line.as_str());
                    let new_line = match rewritten(&fields, id, name, email) {
                        Some(new_line) => new_line,
                        None => {
                            return Err(ProgramError::DataAccessError);
                        },
                    };
                    out.push(new_line);
                }
            },
            None => {
                return Err(ProgramError::DataAccessError);
            },
        }
        i = i + 1;
    }
    proof {
        if at < lines.len() {
            assert(out.deep_view() =~= texts.update(at as int, out[at as int]@));
        } else {
            assert(out.deep_view() =~= texts);
        }
    }
    Ok(out)
}

/// The line that replaces, in an edit, the line with the fields `fields`.
fn rewritten(fields: &Vec<String>, id: &str, name: Option<&str>, email: Option<&str>) -> (r:
    Option<String>)
    ensures
        forall|line: Seq<char>|
            fields_of(line) == fields.deep_view() ==> #[trigger] replacement(
                line,
                id@,
                name.deep_view(),
                email.deep_view(),
            ) == r.deep_view(),
{
    let new_name: &str = match name {
        Some(value) => value,
        None => {
            if NAME_IDX >= fields.len() {
                return None;
            }
            fields[NAME_IDX].as_str()
        },
    };
    let new_email: &str = match email {
        Some(value) => value,
        None => {
            if EMAIL_IDX >= fields.len() {
                return None;
            }
            fields[EMAIL_IDX].as_str()
        },
    };
    Some(record_line(id, new_name, new_email))
}

/// What `first_with_id` finds is the first row, at or after `from`, that
/// has the identifier; it finds none only where no such row has it.
pub proof fn lemma_first_with_id(rows: Seq<(usize, Seq<Seq<char>>)>, id: Seq<char>, from: nat)
    ensures
        match first_with_id(rows, id, from) {
            Some(k) => from <= k < rows.len() && has_id(rows[k], id) && forall|j: int|
                from <= j < k ==> !has_id(#[trigger] rows[j], id),
            None => forall|j: int| from <= j < rows.len() ==> !has_id(#[trigger] rows[j], id),
        },
    decreases rows.len() - from,
{
    if from < rows.len() && !has_id(rows[from as int], id) {
        lemma_first_with_id(rows, id, from + 1);
    }
}

/// Where every line could be read as text, the decoded lines are the texts
/// of the lines.
pub proof fn lemma_decoded_texts(raw: Seq<Option<Seq<char>>>)
    requires
        all_decoded(raw),
    ensures
        decoded(raw) == texts_of(raw),
    decreases raw.len(),
{
    if raw.len() > 0 {
        lemma_decoded_texts(raw.drop_last());
    }
}

/// Without the line of one of its rows, a file has the same rows but that
/// one, in the same order.
pub proof fn lemma_rows_without_line(lines: Seq<Seq<char>>, n: nat, k: int)
    requires
        lines.len() <= usize::MAX,
        0 <= k < rows_of(lines, n).len(),
    ensures
        table_of(rows_of(lines.remove(rows_of(lines, n)[k].0 as int), n)) == table_of(
            rows_of(lines, n),
        ).remove(k),
    decreases lines.len(),
{
    let p = rows_of(lines, n)[k].0 as int;
    let front = lines.drop_last();
    lemma_rows_of_shape(front, n);
    if p < lines.len() - 1 {
        lemma_rows_without_line(front, n, k);
        let cut = lines.remove(p);
        assert(cut.drop_last() =~= front.remove(p));
        let fields = fields_of(lines.last());
        if is_row(fields, n) {
            assert(table_of(rows_of(cut, n)) =~= table_of(rows_of(front.remove(p), n)).push(
                fields,
            ));
        }
    }
}

/// With the line of one of its rows replaced by a line that makes a row, a
/// file has the same rows but for the fields of that one.
pub proof fn lemma_rows_with_line(lines: Seq<Seq<char>>, n: nat, k: int, line: Seq<char>)
    requires
        lines.len() <= usize::MAX,
        0 <= k < rows_of(lines, n).len(),
        is_row(fields_of(line), n),
    ensures
        rows_of(lines.update(rows_of(lines, n)[k].0 as int, line), n) == rows_of(lines, n).update(
            k,
            (rows_of(lines, n)[k].0, fields_of(line)),
        ),
    decreases lines.len(),
{
    let p = rows_of(lines, n)[k].0 as int;
    let front = lines.drop_last();
    let new_lines = lines.update(p, line);
    lemma_rows_of_shape(front, n);
    if p < lines.len() - 1 {
        lemma_rows_with_line(front, n, k, line);
        assert(new_lines.drop_last() =~= front.update(p, line));
    } else {
        assert(new_lines.drop_last() =~= front);
    }
}

/// Removing an entry leaves, in a new parse of the file, exactly the other
/// rows in their order, the header among them.
pub proof fn law_removal_leaves_the_other_rows(
    raw: Seq<Option<Seq<char>>>,
    n: nat,
    id: Seq<char>,
)
    requires
        raw.len() <= usize::MAX,
        removal(parsed(raw, n), id, raw) is Ok,
    ensures
        ({
            let rows = parsed(raw, n);
            let left = removal(rows, id, raw)->Ok_0;
            let k = target_of(rows, id)->0;
            &&& 1 <= k < rows.len()
            &&& has_id(rows[k], id)
            &&& table_of(parsed(as_read(left), n)) == table_of(rows).remove(k)
            &&& header_of(table_of(parsed(as_read(left), n))) == header_of(table_of(rows))
            &&& entries_of(table_of(parsed(as_read(left), n))) == entries_of(table_of(rows)).remove(
                k - 1,
            )
        }),
{
    let rows = parsed(raw, n);
    let k = target_of(rows, id)->0;
    lemma_first_with_id(rows, id, 1);
    lemma_decoded_texts(raw);
    lemma_rows_of_shape(texts_of(raw), n);
    lemma_rows_without_line(texts_of(raw), n, k);
    lemma_decoded_as_read(removal(rows, id, raw)->Ok_0);
}

/// Removing an entry whose identifier no other entry has, and then
/// removing the same identifier from what is left, fails the second time
/// with `EntryNotFoundError`.
pub proof fn law_second_removal_finds_nothing(raw: Seq<Option<Seq<char>>>, n: nat, id: Seq<char>)
    requires
        raw.len() <= usize::MAX,
        removal(parsed(raw, n), id, raw) is Ok,
        forall|i: int, j: int|
            1 <= i < j < parsed(raw, n).len() ==> !(has_id(#[trigger] parsed(raw, n)[i], id)
                && has_id(#[trigger] parsed(raw, n)[j], id)),
    ensures
        ({
            let left = as_read(removal(parsed(raw, n), id, raw)->Ok_0);
            removal(parsed(left, n), id, left) == Err::<Seq<Seq<char>>, ErrorView>(
                ErrorView::EntryNotFoundError,
            )
        }),
{
    let rows = parsed(raw, n);
    let k = target_of(rows, id)->0;
    let left = as_read(removal(rows, id, raw)->Ok_0);
    let new_rows = parsed(left, n);
    law_removal_leaves_the_other_rows(raw, n, id);
    assert forall|j: int| 1 <= j < new_rows.len() implies !has_id(#[trigger] new_rows[j], id) by {
        if j < k {
            assert(table_of(rows).remove(k)[j] == rows[j].1);
        } else {
            assert(table_of(rows).remove(k)[j] == rows[j + 1].1);
        }
    }
    lemma_first_with_id(new_rows, id, 1);
}

/// Editing an entry of a file of three columns changes, in a new parse of
/// the file, the fields of that entry and nothing else: the supplied fields
/// are new, the others and the identifier stay, and so do all other rows
/// and their order. This holds where the identifier is not empty and no
/// supplied field holds a comma.
pub proof fn law_edit_changes_one_row(
    raw: Seq<Option<Seq<char>>>,
    id: Seq<char>,
    name: Option<Seq<char>>,
    email: Option<Seq<char>>,
)
    requires
        raw.len() <= usize::MAX,
        target_of(parsed(raw, 3), id) is Some,
        all_decoded(raw),
        id.len() > 0,
        name matches Some(value) ==> delimiter_free(value),
        email matches Some(value) ==> delimiter_free(value),
    ensures
        ({
            let rows = parsed(raw, 3);
            let k = target_of(rows, id)->0;
            let result = edition(rows, id, name, email, raw);
            &&& 1 <= k < rows.len()
            &&& result is Ok
            &&& table_of(parsed(as_read(result->Ok_0), 3)) == table_of(rows).update(
                k,
                edited_fields(rows[k].1, id, name, email),
            )
        }),
{
    let rows = parsed(raw, 3);
    let k = target_of(rows, id)->0;
    lemma_first_with_id(rows, id, 1);
    lemma_decoded_texts(raw);
    let lines = texts_of(raw);
    lemma_rows_of_shape(lines, 3);
    let p = rows[k].0 as int;
    lemma_fields_of_shape(lines[p]);
    let new_fields = edited_fields(rows[k].1, id, name, email);
    lemma_split_of_join(new_fields);
    assert(new_fields =~= seq![id, new_fields[1], new_fields[2]]);
    lemma_rows_with_line(lines, 3, k, line_of(new_fields));
    lemma_decoded_as_read(lines.update(p, line_of(new_fields)));
}

/// The decimal text of a number holds no comma and is not empty.
pub proof fn lemma_decimal_text_is_a_field(v: int)
    ensures
        delimiter_free(decimal_text(v)),
        decimal_text(v).len() > 0,
{
    if v < 0 {
        lemma_digits_of_value((-v) as nat);
    } else {
        lemma_digits_of_value(v as nat);
    }
}

/// Adding an entry to a file of three columns adds, in a new parse of the
/// file, one row after all others: the next identifier, the name and the
/// email address. The identifier after that is one more, as long as it
/// fits. This holds where neither the name nor the email address holds a
/// comma.
pub proof fn law_append_adds_the_last_row(
    raw: Seq<Option<Seq<char>>>,
    name: Seq<char>,
    email: Seq<char>,
)
    requires
        next_id_of(table_of(parsed(raw, 3))) is Some,
        delimiter_free(name),
        delimiter_free(email),
    ensures
        ({
            let table = table_of(parsed(raw, 3));
            let id = next_id_of(table)->0;
            let line = appended_line(table, name, email)->0;
            let new_table = table_of(parsed(raw.push(Some(line)), 3));
            &&& appended_line(table, name, email) is Some
            &&& new_table == table.push(seq![decimal_text(id), name, email])
            &&& id <= i32::MAX ==> next_id_of(new_table) == Some(id + 1)
        }),
{
    let id = next_id_of(table_of(parsed(raw, 3)))->0;
    let fields = seq![decimal_text(id), name, email];
    lemma_decimal_text_is_a_field(id);
    lemma_split_of_join(fields);
    let new_raw = raw.push(Some(line_of(fields)));
    assert(new_raw.drop_last() =~= raw);
    assert(decoded(new_raw).drop_last() =~= decoded(raw));
    lemma_integer_of_decimal_text(id);
}

} // verus!
