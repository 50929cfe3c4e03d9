//! The command executor: what a command asks of the store and the mutator,
//! and the effect that the program around the library is to carry out.
use vstd::prelude::*;
use vstd::pervasive::unreached;
use crate::config::Config;
use crate::errors::{ErrorView, ProgramError};
use crate::mutator::{append_entry_to_data, appended_line, edit, edition, remove, removal};
use crate::number::{decimal_text, digits_string};
use crate::fields::{fields_of, line_of};
use crate::parser::{
    decoded,
    is_row,
    lemma_decoded_len,
    lemma_rows_of_complete,
    lemma_rows_of_shape,
    lemma_rows_of_well_formed,
    parsed,
    read_data,
};
use crate::store::{
    copy_row,
    entries_of,
    find_many,
    find_one,
    header_of,
    matching,
    parse_failure,
    strip_indices,
    table_of,
    MatchMode,
};

verus! {

/// What to search the entries by.
#[derive(Debug)]
pub enum SearchCommand {
    /// The entry with this identifier.
    Id { id: usize },
    /// The entries whose name holds this text.
    Name { name: String },
    /// The entries whose email address holds this text.
    Email { email: String },
}

/// What to change in an entry.
#[derive(Debug)]
pub enum EditCommand {
    /// Its name.
    Name { name: String },
    /// Its email address.
    Email { email: String },
    /// Both.
    NameEmail { name: String, email: String },
}

/// A command of the contact manager.
#[derive(Debug)]
#[allow(inconsistent_fields)]
pub enum Command {
    /// Show all entries.
    View,
    /// Add an entry.
    Add { name: String, email: String },
    /// Show the entries that a search finds.
    Search { sub: SearchCommand },
    /// Remove the entry with this identifier.
    Remove { id: usize },
    /// Edit the entry with this identifier.
    Edit { id: usize, sub: EditCommand },
}

/// What the program is to do for a command.
#[derive(Debug)]
pub enum Effect {
    /// Draw a table with this title row and these rows.
    Render { title: Vec<String>, body: Vec<Vec<String>> },
    /// Add this line at the end of the data file.
    Append { line: String },
    /// Replace the content of the data file by these lines: write them to
    /// the scratch file, then rename it over the data file.
    Replace { lines: Vec<String> },
    /// Report this error.
    Report { error: ProgramError },
}

/// An `Effect` with its texts as sequences of characters.
pub enum EffectView {
    Render { title: Seq<Seq<char>>, body: Seq<Seq<Seq<char>>> },
    Append { line: Seq<char> },
    Replace { lines: Seq<Seq<char>> },
    Report { error: ErrorView },
}

impl View for Effect {
    type V = EffectView;

    open spec fn view(&self) -> EffectView {
        match self {
            Effect::Render { title, body } => EffectView::Render {
                title: title.deep_view(),
                body: body.deep_view(),
            },
            Effect::Append { line } => EffectView::Append { line: line@ },
            Effect::Replace { lines } => EffectView::Replace { lines: lines.deep_view() },
            Effect::Report { error } => EffectView::Report { error: error@ },
        }
    }
}

/// A step of carrying out an effect that can fail.
#[derive(Clone, Copy, Debug, PartialEq, Eq, Structural)]
pub enum Step {
    /// Opening or creating a file.
    Open,
    /// Writing a line.
    Write,
    /// Renaming the scratch file over the data file.
    Rename,
    /// Drawing a table.
    Render,
}

/// The error to report when `step` fails while `effect` is carried out: a
/// table that cannot be drawn is a `PrintTableError`, a new entry that
/// cannot be written is a `WriteError`, and every other failure to get at
/// the files is a `DataAccessError`.
pub open spec fn failure_of(effect: EffectView, step: Step) -> ErrorView {
    match step {
        Step::Render => ErrorView::PrintTableError,
        Step::Write => if effect is Append {
            ErrorView::WriteError
        } else {
            ErrorView::DataAccessError
        },
        Step::Open | Step::Rename => ErrorView::DataAccessError,
    }
}

impl Effect {
    /// The error to report when `step` fails while this effect is carried
    /// out.
    pub fn failure(&self, step: Step) -> (e: ProgramError)
        ensures
            e@ == failure_of(self@, step),
    {
        match step {
            Step::Render => ProgramError::PrintTableError,
            Step::Write => match self {
                Effect::Append { .. } => ProgramError::WriteError,
                _ => ProgramError::DataAccessError,
            },
            Step::Open => ProgramError::DataAccessError,
            Step::Rename => ProgramError::DataAccessError,
        }
    }
}

/// The text by which an entry with the identifier `id` is found: `id` in
/// decimal.
pub open spec fn id_text(id: usize) -> Seq<char> {
    decimal_text(id as int)
}

/// The name that an edit supplies, if any.
pub open spec fn name_in(sub: EditCommand) -> Option<Seq<char>> {
    match sub {
        EditCommand::Name { name } => Some(name@),
        EditCommand::Email { email } => None,
        EditCommand::NameEmail { name, email } => Some(name@),
    }
}

/// The email address that an edit supplies, if any.
pub open spec fn email_in(sub: EditCommand) -> Option<Seq<char>> {
    match sub {
        EditCommand::Name { name } => None,
        EditCommand::Email { email } => Some(email@),
        EditCommand::NameEmail { name, email } => Some(email@),
    }
}

/// The first of `rows` alone; no row where there is none.
pub open spec fn first_of(rows: Seq<Seq<Seq<char>>>) -> Seq<Seq<Seq<char>>> {
    if rows.len() == 0 {
        rows
    } else {
        seq![rows[0]]
    }
}

/// The effect of showing what a search found: the table of `found` under
/// the header, or the report that nothing was found.
pub open spec fn shown(header: Seq<Seq<char>>, found: Seq<Seq<Seq<char>>>) -> EffectView {
    if found.len() == 0 {
        EffectView::Report { error: ErrorView::EntryNotFoundError }
    } else {
        EffectView::Render { title: header, body: found }
    }
}

/// The effect of a mutation: the new content of the file, or the report of
/// its failure.
pub open spec fn replaced(result: Result<Seq<Seq<char>>, ErrorView>) -> EffectView {
    match result {
        Ok(lines) => EffectView::Replace { lines },
        Err(error) => EffectView::Report { error },
    }
}

/// The effect of `command` on a data file, given what reading the file
/// brought: `None` if it could not be opened, else its lines, each `None`
/// if it could not be read as text.
///
/// A file that cannot be opened is a `DataAccessError`. Else the lines are
/// parsed into the rows of the table, the first of them the header and the
/// others the entries, and
/// - `View` draws the header and all entries, which is an empty table where
///   the file holds no row;
/// - `Add` appends the line of the new entry, or reports that no identifier
///   could be computed;
/// - `Search` by identifier draws the first entry whose identifier field
///   equals the identifier in decimal; by name or email address it draws all
///   entries whose field holds the text; it reports `EntryNotFoundError`
///   where there is none;
/// - `Remove` and `Edit` replace the content of the file, or report why they
///   could not.
pub open spec fn outcome(config: Config, command: Command, source: Option<Seq<Option<Seq<char>>>>)
    -> EffectView {
    match source {
        None => EffectView::Report { error: ErrorView::DataAccessError },
        Some(raw) => {
            let rows = parsed(raw, config.total_num_cols as nat);
            let table = table_of(rows);
            let header = header_of(table);
            let entries = entries_of(table);
            match command {
                Command::View => EffectView::Render { title: header, body: entries },
                Command::Add { name, email } => match appended_line(table, name@, email@) {
                    Some(line) => EffectView::Append { line },
                    None => EffectView::Report { error: parse_failure() },
                },
                Command::Search { sub } => match sub {
                    SearchCommand::Id { id } => shown(
                        header,
                        first_of(
                            matching(entries, config.id_idx as int, id_text(id), MatchMode::Exact),
                        ),
                    ),
                    SearchCommand::Name { name } => shown(
                        header,
                        matching(entries, config.name_idx as int, name@, MatchMode::Contains),
                    ),
                    SearchCommand::Email { email } => shown(
                        header,
                        matching(entries, config.email_idx as int, email@, MatchMode::Contains),
                    ),
                },
                Command::Remove { id } => replaced(removal(rows, id_text(id), raw)),
                Command::Edit { id, sub } => replaced(
                    edition(rows, id_text(id), name_in(sub), email_in(sub), raw),
                ),
            }
        },
    }
}

/// `View` draws what the file holds, cell by cell: the title row and the
/// rows drawn are, in the order of the file, the fields of exactly those
/// decoded lines that make a row, and the fields of each, joined by commas,
/// are its line again. Where every decoded line makes a row, every line is
/// drawn.
pub proof fn law_view_shows_the_file(config: Config, raw: Seq<Option<Seq<char>>>)
    requires
        raw.len() <= usize::MAX,
    ensures
        ({
            let n = config.total_num_cols as nat;
            let lines = decoded(raw);
            let rows = parsed(raw, n);
            let table = table_of(rows);
            &&& outcome(config, Command::View, Some(raw)) == EffectView::Render {
                title: header_of(table),
                body: entries_of(table),
            }
            &&& table.len() > 0 ==> seq![header_of(table)] + entries_of(table) == table
            &&& table.len() == rows.len()
            &&& forall|k: int|
                0 <= k < rows.len() ==> {
                    let at = (#[trigger] rows[k]).0 as int;
                    &&& 0 <= at < lines.len()
                    &&& table[k] == fields_of(lines[at])
                    &&& line_of(table[k]) == lines[at]
                }
            &&& forall|j: int, k: int|
                0 <= j < k < rows.len() ==> (#[trigger] rows[j]).0 < (#[trigger] rows[k]).0
            &&& forall|i: int|
                0 <= i < lines.len() && is_row(fields_of(#[trigger] lines[i]), n) ==> exists|k: int|
                    0 <= k < rows.len() && (#[trigger] rows[k]).0 == i
            &&& (forall|i: int| 0 <= i < lines.len() ==> is_row(fields_of(#[trigger] lines[i]), n))
                ==> table.len() == lines.len() && forall|i: int|
                0 <= i < lines.len() ==> line_of(#[trigger] table[i]) == lines[i]
        }),
{
    let n = config.total_num_cols as nat;
    let lines = decoded(raw);
    let rows = parsed(raw, n);
    lemma_decoded_len(raw);
    lemma_rows_of_shape(lines, n);
    assert forall|i: int|
        0 <= i < lines.len() && is_row(fields_of(#[trigger] lines[i]), n) implies exists|k: int|
        0 <= k < rows.len() && (#[trigger] rows[k]).0 == i by {
        lemma_rows_of_complete(lines, n, i);
    }
    if forall|i: int| 0 <= i < lines.len() ==> is_row(fields_of(#[trigger] lines[i]), n) {
        lemma_rows_of_well_formed(lines, n);
    }
}

/// The header of `table` as a title row.
fn title_of(table: &Vec<Vec<String>>) -> (title: Vec<String>)
    ensures
        title.deep_view() == header_of(table.deep_view()),
{
    if table.len() == 0 {
        let title: Vec<String> = Vec::new();
        title
    } else {
        copy_row(&table[0])
    }
}

/// The effect of showing the rows that a search found.
fn show(table: &Vec<Vec<String>>, found: Result<Vec<Vec<String>>, ProgramError>) -> (effect: Effect)
    requires
        found matches Err(e) ==> e == ProgramError::EntryNotFoundError,
        found matches Ok(rows) ==> rows.len() > 0,
    ensures
        effect@ == shown(
            header_of(table.deep_view()),
            match found {
                Ok(rows) => rows.deep_view(),
                Err(_) => Seq::empty(),
            },
        ),
{
    match found {
        Ok(body) => Effect::Render { title: title_of(table), body },
        Err(error) => Effect::Report { error },
    }
}

/// Carries out `command` on a data file as far as computing goes: gives the
/// effect that is left for the program to carry out.
///
/// `source` is what reading the data file brought: `None` if the file could
/// not be opened, else its lines in order, each `None` if it could not be
/// read as text.
pub fn run(config: &Config, command: Command, source: &Option<Vec<Option<String>>>) -> (effect:
    Effect)
    ensures
        effect@ == outcome(*config, command, source.deep_view()),
{
    let data = match read_data(source, config.total_num_cols) {
        Ok(data) => data,
        Err(error) => {
            return Effect::Report { error };
        },
    };
    let lines = match source {
        Some(lines) => lines,
        None => unreached(),
    };
    let mut table = strip_indices(&data);
    match command {
        Command::View => {
            let title = title_of(&table);
            let ghost all = table.deep_view();
            if table.len() > 0 {
                table.remove(0);
            }
            assert(table.deep_view() =~= entries_of(all));
            Effect::Render { title, body: table }
        },
        Command::Add { name, email } => {
            match append_entry_to_data((name.as_str(), email.as_str()), &table) {
                Ok(line) => Effect::Append { line },
                Err(error) => Effect::Report { error },
            }
        },
        Command::Search { sub } => match sub {
            SearchCommand::Id { id } => {
                let id = digits_string(id as u64);
                let ghost found = matching(
                    entries_of(table.deep_view()),
                    config.id_idx as int,
                    id@,
                    MatchMode::Exact,
                );
                match find_one(&table, config.id_idx, id.as_str()) {
                    Ok(row) => {
                        let mut body: Vec<Vec<String>> = Vec::new();
                        body.push(row);
                        assert(body.deep_view() =~= first_of(found));
                        show(&table, Ok(body))
                    },
                    Err(error) => show(&table, Err(error)),
                }
            },
            SearchCommand::Name { name } => {
                let found = find_many(&table, config.name_idx, name.as_str(), MatchMode::Contains);
                show(&table, found)
            },
            SearchCommand::Email { email } => {
                let found = find_many(
                    &table,
                    config.email_idx,
                    email.as_str(),
                    MatchMode::Contains,
                );
                show(&table, found)
            },
        },
        Command::Remove { id } => {
            let id = digits_string(id as u64);
            match remove(&data, id.as_str(), lines) {
                Ok(lines) => Effect::Replace { lines },
                Err(error) => Effect::Report { error },
            }
        },
        Command::Edit { id, sub } => {
            let id = digits_string(id as u64);
            let result = match &sub {
                EditCommand::Name { name } => edit(
                    &data,
                    id.as_str(),
                    Some(name.as_str()),
                    None,
                    lines,
                ),
                EditCommand::Email { email } => edit(
                    &data,
                    id.as_str(),
                    None,
                    Some(email.as_str()),
                    lines,
                ),
                EditCommand::NameEmail { name, email } => edit(
                    &data,
                    id.as_str(),
                    Some(name.as_str()),
                    Some(email.as_str()),
                    lines,
                ),
            };
            match result {
                Ok(lines) => Effect::Replace { lines },
                Err(error) => Effect::Report { error },
            }
        },
    }
}

} // verus!
