use basic_contact_manager::errors::ProgramError;
use basic_contact_manager::parser::{makes_row, map_lines_to_data, read_data};
use basic_contact_manager::store::{
    copy_row, find_many, find_one, next_id, parse_error, row_matches, strip_indices, MatchMode,
};
use basic_contact_manager::text::contains;

fn strings(items: &[&str]) -> Vec<String> {
    items.iter().map(|s| s.to_string()).collect()
}

fn table(rows: &[&[&str]]) -> Vec<Vec<String>> {
    rows.iter().map(|r| strings(r)).collect()
}

fn read(lines: &[&str]) -> Vec<Option<String>> {
    lines.iter().map(|l| Some(l.to_string())).collect()
}

fn abc() -> Vec<Vec<String>> {
    table(&[&["id", "name", "email"], &["1", "A", "a"], &["2", "B", "b"], &["3", "C", "c"]])
}

fn tom_jon_amy() -> Vec<Vec<String>> {
    table(&[
        &["id", "name", "email"],
        &["1", "Tom", "t@x"],
        &["2", "Jon", "j@x"],
        &["3", "Amy", "a@x"],
    ])
}

#[test]
fn program_error_equality() {
    assert_eq!(ProgramError::PrintTableError, ProgramError::PrintTableError);
    assert_eq!(ProgramError::EntryNotFoundError, ProgramError::EntryNotFoundError);
    assert_eq!(ProgramError::DataAccessError, ProgramError::DataAccessError);
    assert_eq!(ProgramError::WriteError, ProgramError::WriteError);
    assert_eq!(
        ProgramError::CustomError { val: "x".to_string() },
        ProgramError::CustomError { val: "x".to_string() }
    );
    assert_ne!(
        ProgramError::CustomError { val: "x".to_string() },
        ProgramError::CustomError { val: "y".to_string() }
    );
    assert_ne!(ProgramError::WriteError, ProgramError::DataAccessError);
    assert_ne!(ProgramError::EntryNotFoundError, ProgramError::PrintTableError);
    assert_ne!(ProgramError::CustomError { val: String::new() }, ProgramError::WriteError);
}

#[test]
fn makes_row_wants_the_column_count_and_one_filled_field() {
    assert!(makes_row(&strings(&["1", "A", "a"]), 3));
    assert!(makes_row(&strings(&["", "", "a"]), 3));
    assert!(makes_row(&strings(&["x", "", ""]), 3));
    assert!(!makes_row(&strings(&["", "", ""]), 3));
    assert!(!makes_row(&strings(&["1", "A"]), 3));
    assert!(!makes_row(&strings(&["1", "A", "a", "z"]), 3));
    assert!(!makes_row(&strings(&[]), 0));
    assert!(makes_row(&strings(&["a"]), 1));
}

#[test]
fn parse_keeps_rows_with_their_line_index() {
    let lines = read(&["id,name,email", "1,Tom,t@x", "2,Jon,j@x"]);
    assert_eq!(
        map_lines_to_data(&lines, 3),
        vec![
            (0, strings(&["id", "name", "email"])),
            (1, strings(&["1", "Tom", "t@x"])),
            (2, strings(&["2", "Jon", "j@x"])),
        ]
    );
}

#[test]
fn parse_drops_lines_with_wrong_column_count_or_all_blank() {
    let lines = read(&["id,name,email", "", "1,Tom", ",,", "1,Tom,t@x,extra", "2,Jon,j@x", ",,z"]);
    assert_eq!(
        map_lines_to_data(&lines, 3),
        vec![
            (0, strings(&["id", "name", "email"])),
            (5, strings(&["2", "Jon", "j@x"])),
            (6, strings(&["", "", "z"])),
        ]
    );
}

#[test]
fn parse_skips_undecodable_lines_without_counting_them() {
    let lines = vec![
        Some("id,name,email".to_string()),
        None,
        Some("1,Tom,t@x".to_string()),
        None,
        None,
        Some("bad".to_string()),
        Some("2,Jon,j@x".to_string()),
    ];
    assert_eq!(
        map_lines_to_data(&lines, 3),
        vec![
            (0, strings(&["id", "name", "email"])),
            (1, strings(&["1", "Tom", "t@x"])),
            (3, strings(&["2", "Jon", "j@x"])),
        ]
    );
}

#[test]
fn parse_of_no_lines_is_empty() {
    assert_eq!(map_lines_to_data(&Vec::new(), 3), Vec::new());
}

#[test]
fn parse_with_two_columns() {
    let lines = read(&["name,age", "Tom,10", "Jerry,15,x", "Joe,20"]);
    assert_eq!(
        map_lines_to_data(&lines, 2),
        vec![
            (0, strings(&["name", "age"])),
            (1, strings(&["Tom", "10"])),
            (3, strings(&["Joe", "20"])),
        ]
    );
}

#[test]
fn read_data_of_unopened_file_is_data_access_error() {
    assert_eq!(read_data(&None, 3), Err(ProgramError::DataAccessError));
}

#[test]
fn read_data_parses_the_lines() {
    let source = Some(read(&["id,name,email", "x", "1,Tom,t@x"]));
    assert_eq!(
        read_data(&source, 3),
        Ok(vec![(0, strings(&["id", "name", "email"])), (2, strings(&["1", "Tom", "t@x"]))])
    );
}

#[test]
fn strip_indices_keeps_fields_and_order() {
    let rows = vec![(0, strings(&["id", "name", "email"])), (4, strings(&["1", "Tom", "t@x"]))];
    assert_eq!(strip_indices(&rows), table(&[&["id", "name", "email"], &["1", "Tom", "t@x"]]));
    assert_eq!(strip_indices(&Vec::new()), Vec::<Vec<String>>::new());
}

#[test]
fn copy_row_copies() {
    assert_eq!(copy_row(&strings(&["1", "", "é"])), strings(&["1", "", "é"]));
    assert_eq!(copy_row(&Vec::new()), Vec::<String>::new());
}

#[test]
fn contains_finds_substrings() {
    assert!(contains("Tom", "o"));
    assert!(contains("Tom", "Tom"));
    assert!(contains("Tom", "T"));
    assert!(contains("Tom", "m"));
    assert!(contains("Tom", "om"));
    assert!(contains("Tom", ""));
    assert!(contains("", ""));
    assert!(!contains("Tom", "t"));
    assert!(!contains("Tom", "Tomm"));
    assert!(!contains("", "a"));
    assert!(!contains("abab", "abb"));
    assert!(contains("aab", "ab"));
    assert!(contains("日本語", "本"));
    assert!(!contains("日本語", "英"));
}

#[test]
fn contains_agrees_with_std_contains() {
    let texts = ["", "a", "ab", "aba", "abab", "baab", "Tom", "tom@x", "é€", "aaa"];
    for hay in texts {
        for needle in texts {
            assert_eq!(contains(hay, needle), hay.contains(needle), "{:?} in {:?}", needle, hay);
        }
    }
}

#[test]
fn row_matches_by_mode() {
    let row = strings(&["1", "Tom", "t@x"]);
    assert!(row_matches(&row, 1, "Tom", MatchMode::Exact));
    assert!(!row_matches(&row, 1, "To", MatchMode::Exact));
    assert!(row_matches(&row, 1, "To", MatchMode::Contains));
    assert!(!row_matches(&row, 0, "Tom", MatchMode::Contains));
    assert!(!row_matches(&row, 3, "", MatchMode::Contains));
    assert!(!row_matches(&row, 3, "", MatchMode::Exact));
}

#[test]
fn find_one_returns_the_row_with_the_id() {
    assert_eq!(find_one(&abc(), 0, "3"), Ok(strings(&["3", "C", "c"])));
    assert_eq!(find_one(&abc(), 0, "1"), Ok(strings(&["1", "A", "a"])));
}

#[test]
fn find_one_reports_not_found() {
    assert_eq!(find_one(&abc(), 0, "9"), Err(ProgramError::EntryNotFoundError));
}

#[test]
fn find_one_is_exact() {
    let data = table(&[&["id", "name", "email"], &["13", "A", "a"], &["3", "B", "b"]]);
    assert_eq!(find_one(&data, 0, "3"), Ok(strings(&["3", "B", "b"])));
    assert_eq!(find_one(&data, 0, "1"), Err(ProgramError::EntryNotFoundError));
}

#[test]
fn find_one_returns_the_first_of_several() {
    let data = table(&[&["id", "name", "email"], &["2", "A", "a"], &["2", "B", "b"]]);
    assert_eq!(find_one(&data, 0, "2"), Ok(strings(&["2", "A", "a"])));
}

#[test]
fn find_one_does_not_search_the_header() {
    assert_eq!(find_one(&abc(), 0, "id"), Err(ProgramError::EntryNotFoundError));
    assert_eq!(find_one(&abc(), 1, "name"), Err(ProgramError::EntryNotFoundError));
}

#[test]
fn find_one_on_empty_or_header_only_table() {
    assert_eq!(find_one(&Vec::new(), 0, "1"), Err(ProgramError::EntryNotFoundError));
    let header = table(&[&["id", "name", "email"]]);
    assert_eq!(find_one(&header, 0, "1"), Err(ProgramError::EntryNotFoundError));
}

#[test]
fn find_one_with_a_column_that_rows_lack() {
    assert_eq!(find_one(&abc(), 3, "a"), Err(ProgramError::EntryNotFoundError));
}

#[test]
fn find_many_contains_keeps_order() {
    assert_eq!(
        find_many(&tom_jon_amy(), 1, "o", MatchMode::Contains),
        Ok(table(&[&["1", "Tom", "t@x"], &["2", "Jon", "j@x"]]))
    );
}

#[test]
fn find_many_exact() {
    assert_eq!(
        find_many(&tom_jon_amy(), 1, "Jon", MatchMode::Exact),
        Ok(table(&[&["2", "Jon", "j@x"]]))
    );
    assert_eq!(
        find_many(&tom_jon_amy(), 1, "o", MatchMode::Exact),
        Err(ProgramError::EntryNotFoundError)
    );
}

#[test]
fn find_many_by_email() {
    assert_eq!(
        find_many(&tom_jon_amy(), 2, "@x", MatchMode::Contains),
        Ok(table(&[&["1", "Tom", "t@x"], &["2", "Jon", "j@x"], &["3", "Amy", "a@x"]]))
    );
}

#[test]
fn find_many_without_match_is_not_found() {
    assert_eq!(
        find_many(&tom_jon_amy(), 1, "zz", MatchMode::Contains),
        Err(ProgramError::EntryNotFoundError)
    );
    assert_eq!(
        find_many(&Vec::new(), 1, "", MatchMode::Contains),
        Err(ProgramError::EntryNotFoundError)
    );
}

#[test]
fn find_many_does_not_search_the_header() {
    assert_eq!(
        find_many(&tom_jon_amy(), 1, "m", MatchMode::Contains),
        Ok(table(&[&["1", "Tom", "t@x"], &["3", "Amy", "a@x"]]))
    );
    assert_eq!(
        find_many(&tom_jon_amy(), 1, "name", MatchMode::Contains),
        Err(ProgramError::EntryNotFoundError)
    );
}

#[test]
fn next_id_is_last_id_plus_one() {
    let data = table(&[
        &["id", "name", "email"],
        &["1", "Tom", "10"],
        &["2", "Jerry", "15"],
        &["4", "Joe", "20"],
    ]);
    assert_eq!(next_id(&data), Ok(5));
}

#[test]
fn next_id_goes_by_the_last_row_not_the_greatest() {
    let data = table(&[&["id", "name", "email"], &["9", "Tom", "10"], &["2", "Jerry", "15"]]);
    assert_eq!(next_id(&data), Ok(3));
}

#[test]
fn next_id_of_unparsable_id_is_custom_error() {
    let data = table(&[&["id", "name", "email"], &["1", "Tom", "10"], &["abc", "Joe", "20"]]);
    assert_eq!(
        next_id(&data),
        Err(ProgramError::CustomError { val: "Couldn't parse id".to_string() })
    );
}

#[test]
fn next_id_without_entries_is_custom_error() {
    assert_eq!(next_id(&Vec::new()), Err(parse_error()));
    assert_eq!(next_id(&table(&[&["1", "name", "email"]])), Err(parse_error()));
    assert_eq!(next_id(&vec![strings(&["id"]), Vec::new()]), Err(parse_error()));
}

#[test]
fn next_id_after_the_greatest_identifier() {
    let data = table(&[&["id", "name", "email"], &["2147483647", "Tom", "10"]]);
    assert_eq!(next_id(&data), Ok(2147483648));
    let data = table(&[&["id", "name", "email"], &["-1", "Tom", "10"]]);
    assert_eq!(next_id(&data), Ok(0));
}

#[test]
fn parse_error_text() {
    assert_eq!(parse_error(), ProgramError::CustomError { val: "Couldn't parse id".to_string() });
}
