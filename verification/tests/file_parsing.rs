use csql::entities::Table;

use csql::errors::{LoadingError, TableInitError};

use csql::file_parsing::{Buffer, Source};

use csql::traits::{Columns, Condition, Data, Loadable, Queryable, SourceType};

/// What the sample file of three rows and three columns holds.
const EXAMPLE: &str = "a;b;c\n1;2;3\nx;y;z";

fn text(s: &str) -> Option<String> {
    Some(String::from(s))
}

#[test]
fn apply_select() -> Result<(), TableInitError> {
    let buf = Buffer::new(Source::FilePath(String::from("samples/example0.csv")));
    assert_eq!(buf.read_path().unwrap(), "samples/example0.csv");
    let mut t = Table::new("example0", &vec!["one", "two", "three"])?;
    t.bulk_load_data(&buf.bulk_data(EXAMPLE, 3).unwrap()).unwrap();
    let expected: Vec<Vec<Option<String>>> = vec![
        vec![Some(String::from("a")), Some(String::from("c"))],
        vec![Some(String::from("1")), Some(String::from("3"))],
        vec![Some(String::from("x")), Some(String::from("z"))],
    ];
    let query_res = t.select(
        &None,
        &Columns::ColumnNames(vec![String::from("one"), String::from("three")]),
        &None
    ).unwrap();
    assert_eq!(query_res, expected);
    Ok(())
}

#[test]
fn dump_data_test() -> Result<(), TableInitError> {
    let buf = Buffer::load_from_source("samples/example0.csv", SourceType::LocalFile).unwrap();
    assert_eq!(buf.write_path(), "samples/example0.csv");
    let mut t = Table::new("example0", &vec!["one", "two", "three"])?;
    t.bulk_load_data(&buf.bulk_data(EXAMPLE, 3).unwrap()).unwrap();
    t.delete(&None, &Some(Condition::Equal(String::from("one"), String::from("a")))).unwrap();
    let new_data = t.get_records_as_collection();
    let expected: Vec<Vec<Option<String>>> = vec![
        vec![Some(String::from("1")), Some(String::from("2")), Some(String::from("3"))],
        vec![Some(String::from("x")), Some(String::from("y")), Some(String::from("z"))],
    ];
    assert_eq!(expected, new_data);
    println!("New data : {:?}", new_data);
    let written = buf.dump_data(new_data);
    assert_eq!(written, "1;2;3\nx;y;z");
    let updated_data = buf.bulk_data(&written, 3).unwrap();
    assert_eq!(expected, updated_data);
    Ok(())
}

#[test]
fn line_to_vec_strips_one_trailing_delimiter() {
    let mut line = String::from("a;;c;");
    let values = Buffer::line_to_vec(&mut line, 3).unwrap();
    assert_eq!(values, vec![text("a"), None, text("c")]);
    assert_eq!(line, "a;;c");

    let mut line = String::from("a;b;;");
    let values = Buffer::line_to_vec(&mut line, 3).unwrap();
    assert_eq!(values, vec![text("a"), text("b"), None]);
    assert_eq!(line, "a;b;");
}

#[test]
fn line_to_vec_of_an_empty_line_is_one_null() {
    let mut line = String::new();
    assert_eq!(Buffer::line_to_vec(&mut line, 1).unwrap(), vec![None]);
    let mut line = String::from(";");
    assert_eq!(Buffer::line_to_vec(&mut line, 1).unwrap(), vec![None]);
    assert_eq!(line, "");
}

#[test]
fn line_to_vec_refuses_a_wrong_field_count() {
    let mut line = String::from("a;b");
    match Buffer::line_to_vec(&mut line, 3) {
        Err(LoadingError::InvalidRecord(reason)) => {
            assert_eq!(reason, "Number of fields does not match the number of columns.")
        },
        other => panic!("unexpected outcome: {:?}", other),
    }
    let mut line = String::from("a;b;c;d");
    assert!(matches!(Buffer::line_to_vec(&mut line, 3), Err(LoadingError::InvalidRecord(_))));
}

#[test]
fn line_to_vec_keeps_text_beyond_ascii() {
    let mut line = String::from("été;日本語;");
    let values = Buffer::line_to_vec(&mut line, 2).unwrap();
    assert_eq!(values, vec![text("été"), text("日本語")]);
}

#[test]
fn record_to_string_writes_null_as_an_empty_field() {
    assert_eq!(Buffer::record_to_string(&vec![text("a"), None, text("c")]), "a;;c");
    assert_eq!(Buffer::record_to_string(&vec![None, None]), ";");
    assert_eq!(Buffer::record_to_string(&vec![text("only")]), "only");
    assert_eq!(Buffer::record_to_string(&vec![]), "");
}

#[test]
fn collection_to_string_joins_lines_without_a_final_line_end() {
    let rows = vec![vec![text("1"), text("2")], vec![None, text("4")]];
    assert_eq!(Buffer::collection_to_string(rows), "1;2\n;4");
    assert_eq!(Buffer::collection_to_string(vec![]), "");
}

#[test]
fn rows_from_text_reads_lines_as_a_line_reader_does() {
    assert_eq!(Buffer::rows_from_text("", 3).unwrap(), Vec::<Vec<Option<String>>>::new());
    assert_eq!(
        Buffer::rows_from_text("a;b\n", 2).unwrap(),
        vec![vec![text("a"), text("b")]]
    );
    assert_eq!(
        Buffer::rows_from_text("a;b\r\nc;d\r\n", 2).unwrap(),
        vec![vec![text("a"), text("b")], vec![text("c"), text("d")]]
    );
    assert_eq!(
        Buffer::rows_from_text("a\n\nb", 1).unwrap(),
        vec![vec![text("a")], vec![None], vec![text("b")]]
    );
    // Without a line end after it, a carriage return belongs to the line.
    assert_eq!(Buffer::rows_from_text("a\r", 1).unwrap(), vec![vec![text("a\r")]]);
    assert_eq!(Buffer::rows_from_text("\n", 1).unwrap(), vec![vec![None]]);
}

#[test]
fn rows_from_text_refuses_a_line_of_another_width() {
    match Buffer::rows_from_text("a;b;c\n1;2\nx;y;z", 3) {
        Err(LoadingError::InvalidRecord(reason)) => {
            assert_eq!(reason, "Number of fields does not match the number of columns.")
        },
        other => panic!("unexpected outcome: {:?}", other),
    }
    // An empty line is a row of one null.
    assert!(matches!(
        Buffer::rows_from_text("a;b\n\nc;d", 2),
        Err(LoadingError::InvalidRecord(_))
    ));
}

#[test]
fn round_trip_gives_the_rows_back() {
    let rows = vec![
        vec![text("1"), None, text("john")],
        vec![None, None, text("x\ry")],
        vec![text("3"), text("é"), text("last\r")],
    ];
    let written = Buffer::collection_to_string(rows.clone());
    assert_eq!(Buffer::rows_from_text(&written, 3).unwrap(), rows);

    let single = vec![vec![None], vec![text("a")]];
    let written = Buffer::collection_to_string(single.clone());
    assert_eq!(written, "\na");
    assert_eq!(Buffer::rows_from_text(&written, 1).unwrap(), single);

    let none: Vec<Vec<Option<String>>> = vec![];
    assert_eq!(Buffer::rows_from_text(&Buffer::collection_to_string(none.clone()), 7).unwrap(), none);
}

#[test]
fn round_trip_loses_a_carriage_return_before_a_line_end() {
    let rows = vec![vec![text("x\r")], vec![text("y")]];
    let written = Buffer::collection_to_string(rows);
    assert_eq!(
        Buffer::rows_from_text(&written, 1).unwrap(),
        vec![vec![text("x")], vec![text("y")]]
    );
}

#[test]
fn round_trip_fails_on_a_null_last_cell() {
    let rows = vec![vec![text("a"), None]];
    let written = Buffer::collection_to_string(rows);
    assert_eq!(written, "a;");
    assert!(matches!(Buffer::rows_from_text(&written, 2), Err(LoadingError::InvalidRecord(_))));
}

#[test]
fn load_from_source_knows_local_files_only() {
    let buffer = Buffer::load_from_source("data/users.csv", SourceType::LocalFile).unwrap();
    assert_eq!(buffer.source(), &Source::FilePath(String::from("data/users.csv")));
    assert!(matches!(
        Buffer::load_from_source("http://example.com/users", SourceType::Http),
        Err(LoadingError::SourceNotImplemented)
    ));
}

#[test]
fn a_remote_source_cannot_be_read() {
    let buffer = Buffer::new(Source::HttpUri(String::from("http://example.com/users")));
    assert!(matches!(buffer.read_path(), Err(LoadingError::SourceNotImplemented)));
    assert!(matches!(buffer.bulk_data("a;b", 2), Err(LoadingError::SourceNotImplemented)));
}
