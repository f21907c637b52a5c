use json2tsv::error::RunError;
use json2tsv::text::{contains_name, decimal_string, join_strings, split_string};
use json2tsv::tsv::{error_missing_col, LineParser, TsvReader, TsvWriter};

fn strings(items: &[&str]) -> Vec<String> {
    items.iter().map(|item| item.to_string()).collect()
}

fn lines(items: &[&str]) -> Vec<Result<String, RunError>> {
    items.iter().map(|item| Ok(item.to_string())).collect()
}

#[test]
fn writer_writes_the_header_first() {
    let writer = TsvWriter::new(String::new(), &strings(&["a", "b"]));
    assert_eq!(writer.into_inner(), "a\tb\n");
}

#[test]
fn writer_appends_one_line_for_each_row() {
    let mut writer = TsvWriter::new(String::from("# "), &strings(&["a", "b"]));
    writer.write(&strings(&["1", "2"]));
    writer.write(&strings(&["", ""]));
    writer.write(&strings(&["only"]));
    writer.write(&[]);
    assert_eq!(writer.into_inner(), "# a\tb\n1\t2\n\t\nonly\n\n");
}

#[test]
fn writer_escapes_nothing() {
    let mut writer = TsvWriter::new(String::new(), &strings(&["a"]));
    writer.write(&strings(&["x\ty", "p\nq", "\"r\""]));
    assert_eq!(writer.into_inner(), "a\nx\ty\tp\nq\t\"r\"\n");
}

#[test]
fn joined_strings() {
    assert_eq!(join_strings(&[], ", "), "");
    assert_eq!(join_strings(&strings(&["a"]), ", "), "a");
    assert_eq!(join_strings(&strings(&["a", "", "c"]), ", "), "a, , c");
}

#[test]
fn split_strings() {
    assert_eq!(split_string("", '\t'), strings(&[""]));
    assert_eq!(split_string("a", '\t'), strings(&["a"]));
    assert_eq!(split_string("a\tb", '\t'), strings(&["a", "b"]));
    assert_eq!(split_string("\ta\t\tb\t", '\t'), strings(&["", "a", "", "b", ""]));
    assert_eq!(split_string("é,ü", ','), strings(&["é", "ü"]));
}

#[test]
fn split_gives_back_what_was_joined() {
    let fields = strings(&["one", "", "three 3"]);
    assert_eq!(split_string(&join_strings(&fields, "\t"), '\t'), fields);
    assert_eq!(join_strings(&split_string("x\t\ty", '\t'), "\t"), "x\t\ty");
}

#[test]
fn names_are_found() {
    let names = strings(&["a", "bc", ""]);
    assert!(contains_name(&names, "a"));
    assert!(contains_name(&names, "bc"));
    assert!(contains_name(&names, ""));
    assert!(!contains_name(&names, "b"));
    assert!(!contains_name(&[], "a"));
}

#[test]
fn numbers_in_decimal() {
    assert_eq!(decimal_string(0), "0");
    assert_eq!(decimal_string(7), "7");
    assert_eq!(decimal_string(10), "10");
    assert_eq!(decimal_string(1234567890), "1234567890");
    assert_eq!(decimal_string(usize::MAX), usize::MAX.to_string());
}

#[test]
fn missing_column_error() {
    assert_eq!(error_missing_col("age").message(), "Missing column age.");
    assert_eq!(error_missing_col("").message(), "Missing column .");
}

#[test]
fn parser_splits_at_its_separator() {
    assert_eq!(LineParser::tabs().parse("a\t b\t"), strings(&["a", " b", ""]));
    assert_eq!(LineParser::new(';').parse("a\tb;c"), strings(&["a\tb", "c"]));
}

#[test]
fn reader_needs_a_header_line() {
    let failed = TsvReader::new(Vec::new(), LineParser::tabs()).err().unwrap();
    assert_eq!(failed.message(), "No header line");
}

#[test]
fn reader_passes_on_the_error_of_the_header_line() {
    let input = vec![Err(RunError::new("disk on fire".to_string())), Ok("a".to_string())];
    let failed = TsvReader::new(input, LineParser::tabs()).err().unwrap();
    assert_eq!(failed.message(), "disk on fire");
}

#[test]
fn reader_reads_header_and_rows() {
    let mut reader = TsvReader::new(lines(&["a\tb", "1\t2", "", "3"]), LineParser::tabs()).unwrap();
    assert_eq!(reader.header(), &strings(&["a", "b"]));
    assert_eq!(reader.next(), Some(Ok(strings(&["1", "2"]))));
    assert_eq!(reader.next(), Some(Ok(strings(&[""]))));
    assert_eq!(reader.next(), Some(Ok(strings(&["3"]))));
    assert_eq!(reader.next(), None);
    assert_eq!(reader.next(), None);
}

#[test]
fn reader_passes_on_the_error_of_a_row() {
    let input = vec![
        Ok("a".to_string()),
        Err(RunError::new("bad line".to_string())),
        Ok("2".to_string()),
    ];
    let mut reader = TsvReader::new(input, LineParser::tabs()).unwrap();
    assert_eq!(reader.next(), Some(Err(RunError::new("bad line".to_string()))));
    assert_eq!(reader.next(), Some(Ok(strings(&["2"]))));
    assert_eq!(reader.next(), None);
}

#[test]
fn column_by_name() {
    let reader = TsvReader::new(lines(&["id\tname\tid"]), LineParser::tabs()).unwrap();
    assert_eq!(reader.col_to_i("id"), Ok(0));
    assert_eq!(reader.col_to_i("name"), Ok(1));
    assert_eq!(reader.col_to_i("age").unwrap_err().message(), "Missing column age.");
}

#[test]
fn columns_by_name() {
    let reader = TsvReader::new(lines(&["id\tname\tid\tage"]), LineParser::tabs()).unwrap();
    assert_eq!(reader.cols_to_is(&strings(&["age", "name"])), Ok(vec![3, 1]));
    assert_eq!(reader.cols_to_is(&strings(&["id", "id"])), Ok(vec![2, 2]));
    assert_eq!(reader.cols_to_is(&[]), Ok(Vec::new()));
    let failed = reader.cols_to_is(&strings(&["name", "x", "y"])).unwrap_err();
    assert_eq!(failed.message(), "Missing column x.");
}

#[test]
fn written_table_is_read_back() {
    let mut writer = TsvWriter::new(String::new(), &strings(&["a", "b"]));
    writer.write(&strings(&["1", ""]));
    let text = writer.into_inner();
    let mut reader = TsvReader::new(lines(&text.lines().collect::<Vec<&str>>()), LineParser::tabs()).unwrap();
    assert_eq!(reader.header(), &strings(&["a", "b"]));
    assert_eq!(reader.next(), Some(Ok(strings(&["1", ""]))));
    assert_eq!(reader.next(), None);
}

#[test]
fn errors_compare_by_message() {
    assert_eq!(RunError::from_text("m"), RunError::new("m".to_string()));
    assert_ne!(RunError::from_text("m"), RunError::from_text("n"));
    assert_eq!(RunError::from_text("m").clone().message(), "m");
}
