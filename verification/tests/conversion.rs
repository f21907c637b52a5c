use json2tsv::convert::{
    extend_header, fill_buffer_and_header, json_to_tsv, write_buffered, write_remaining, write_row,
};
use json2tsv::record::{json_value_to_string, JsonReader, Record};
use json2tsv::tsv::TsvWriter;

fn run(input: &str, buffer_size: usize) -> (String, Vec<String>, Result<(), String>) {
    let mut output = String::new();
    let mut diagnostics: Vec<String> = Vec::new();
    let outcome = json_to_tsv(input.as_bytes(), &mut output, &mut diagnostics, buffer_size);
    (output, diagnostics, outcome.map_err(|error| error.message().to_string()))
}

fn record(text: &str) -> Record {
    serde_json::from_str(text).unwrap()
}

fn strings(items: &[&str]) -> Vec<String> {
    items.iter().map(|item| item.to_string()).collect()
}

#[test]
fn header_is_the_union_of_the_buffered_keys() {
    let (output, diagnostics, outcome) = run("{\"a\":1,\"b\":2}\n{\"b\":3,\"c\":4}\n", 2);
    assert_eq!(output, "a\tb\tc\n1\t2\t\n\t3\t4\n");
    assert!(diagnostics.is_empty());
    assert_eq!(outcome, Ok(()));
}

#[test]
fn key_after_the_buffer_is_unaccounted() {
    let (output, diagnostics, outcome) = run("{\"a\":1}\n{\"b\":2}\n", 1);
    assert_eq!(output, "a\n1\n\n");
    assert_eq!(diagnostics, strings(&["b -> 2"]));
    assert_eq!(outcome, Ok(()));
}

#[test]
fn header_does_not_depend_on_later_key_order() {
    let (first, _, _) = run("{\"a\":1,\"b\":2}{\"a\":3,\"b\":4}{\"b\":5,\"a\":6}", 1);
    let (second, _, _) = run("{\"a\":1,\"b\":2}{\"b\":4,\"a\":3}{\"a\":6,\"b\":5}", 1);
    assert_eq!(first, "a\tb\n1\t2\n3\t4\n6\t5\n");
    assert_eq!(second, first);
}

#[test]
fn every_row_has_as_many_fields_as_the_header() {
    let (output, _, outcome) = run("{\"x\":1,\"y\":2,\"z\":3}{\"y\":true}{}{\"q\":0,\"z\":null}", 1);
    assert_eq!(outcome, Ok(()));
    let lines: Vec<&str> = output.lines().collect();
    assert_eq!(lines.len(), 5);
    for line in lines {
        assert_eq!(line.split('\t').count(), 3);
    }
    assert_eq!(output, "x\ty\tz\n1\t2\t3\n\ttrue\t\n\t\t\n\t\tnull\n");
}

#[test]
fn missing_field_gives_an_empty_cell() {
    let (output, diagnostics, _) = run("{\"a\":\"p\",\"b\":\"q\"}{\"b\":\"r\"}", 2);
    assert_eq!(output, "a\tb\np\tq\n\tr\n");
    assert!(diagnostics.is_empty());
}

#[test]
fn unaccounted_field_is_reported_and_not_written() {
    let (output, diagnostics, outcome) =
        run("{\"a\":1}{\"a\":2,\"zz\":\"text\",\"b\":[1,2]}{\"a\":3}", 1);
    assert_eq!(output, "a\n1\n2\n3\n");
    assert_eq!(diagnostics, strings(&["b -> [1,2]", "zz -> \"text\""]));
    assert_eq!(outcome, Ok(()));
}

#[test]
fn malformed_value_in_the_buffer_writes_nothing() {
    let (output, diagnostics, outcome) = run("{\"a\":1}\n{\"b\" 2}\n", 2);
    assert_eq!(output, "");
    assert!(diagnostics.is_empty());
    assert_eq!(outcome, Err("expected `:` at line 2 column 6".to_string()));
}

#[test]
fn malformed_value_after_the_buffer_keeps_the_rows_before_it() {
    let (output, diagnostics, outcome) = run("{\"a\":1}\n{\"a\":2,\"c\":3}\n{\"b\" 2}\n{\"a\":4}", 1);
    assert_eq!(output, "a\n1\n2\n");
    assert_eq!(diagnostics, strings(&["c -> 3"]));
    assert_eq!(outcome, Err("expected `:` at line 3 column 6".to_string()));
}

#[test]
fn malformed_value_right_after_the_buffer_fills() {
    let (output, _, outcome) = run("{\"a\":1} [", 1);
    assert_eq!(output, "a\n1\n");
    assert!(outcome.is_err());
}

#[test]
fn value_that_is_no_object_is_malformed() {
    let (output, _, outcome) = run("[1,2]", 3);
    assert_eq!(output, "");
    assert_eq!(outcome, Err("invalid type: sequence, expected a map at line 1 column 0".to_string()));
}

#[test]
fn tab_in_a_string_is_written_as_it_is() {
    let (output, _, outcome) = run("{\"a\":\"x\\ty\",\"b\":\"z\"}", 1);
    assert_eq!(outcome, Ok(()));
    assert_eq!(output, "a\tb\nx\ty\tz\n");
    let row = output.lines().nth(1).unwrap();
    assert_eq!(row.split('\t').count(), 3);
}

#[test]
fn newline_in_a_string_is_written_as_it_is() {
    let (output, _, _) = run("{\"a\":\"x\\ny\"}", 1);
    assert_eq!(output, "a\nx\ny\n");
}

#[test]
fn empty_input_gives_an_empty_header_line() {
    let (output, diagnostics, outcome) = run("", 4);
    assert_eq!(output, "\n");
    assert!(diagnostics.is_empty());
    assert_eq!(outcome, Ok(()));
}

#[test]
fn whitespace_only_input_gives_an_empty_header_line() {
    let (output, _, outcome) = run(" \n\t ", 4);
    assert_eq!(output, "\n");
    assert_eq!(outcome, Ok(()));
}

#[test]
fn buffer_of_size_zero_accounts_for_no_field() {
    let (output, diagnostics, outcome) = run("{\"a\":1}{\"b\":2}", 0);
    assert_eq!(output, "\n\n\n");
    assert_eq!(diagnostics, strings(&["a -> 1", "b -> 2"]));
    assert_eq!(outcome, Ok(()));
}

#[test]
fn buffer_larger_than_the_input() {
    let (output, _, outcome) = run("{\"b\":1}\n{\"a\":2}\n", 100);
    assert_eq!(output, "b\ta\n1\t\n\t2\n");
    assert_eq!(outcome, Ok(()));
}

#[test]
fn output_is_appended_to_what_is_there() {
    let mut output = String::from("before\n");
    let mut diagnostics = vec!["earlier".to_string()];
    let outcome = json_to_tsv(b"{\"a\":1}{\"b\":2}", &mut output, &mut diagnostics, 1);
    assert!(outcome.is_ok());
    assert_eq!(output, "before\na\n1\n\n");
    assert_eq!(diagnostics, strings(&["earlier", "b -> 2"]));
}

#[test]
fn last_of_two_equal_keys_counts() {
    let (output, _, _) = run("{\"a\":1,\"a\":2}", 1);
    assert_eq!(output, "a\n2\n");
}

#[test]
fn values_of_each_kind_as_text() {
    assert_eq!(json_value_to_string(serde_json::Value::Null), "null");
    assert_eq!(json_value_to_string(serde_json::Value::Bool(true)), "true");
    assert_eq!(json_value_to_string(serde_json::Value::Bool(false)), "false");
    assert_eq!(json_value_to_string(serde_json::Value::from(42)), "42");
    assert_eq!(json_value_to_string(serde_json::Value::from(-7)), "-7");
    assert_eq!(json_value_to_string(serde_json::Value::from(1.5)), "1.5");
    assert_eq!(json_value_to_string(serde_json::Value::from("plain")), "plain");
    assert_eq!(json_value_to_string(serde_json::Value::from("say \"hi\"")), "say \"hi\"");
    assert_eq!(json_value_to_string(serde_json::Value::from("")), "");
    let array: serde_json::Value = serde_json::from_str("[1, \"a\", null]").unwrap();
    assert_eq!(json_value_to_string(array), "[1,\"a\",null]");
    let object: serde_json::Value = serde_json::from_str("{\"k\": \"v\", \"n\": {\"m\": 1}}").unwrap();
    assert_eq!(json_value_to_string(object), "{\"k\":\"v\",\"n\":{\"m\":1}}");
}

#[test]
fn string_in_a_cell_has_no_quotes_but_in_a_report_it_has() {
    let (output, diagnostics, _) = run("{\"a\":\"s\"}{\"b\":\"t\"}", 1);
    assert_eq!(output, "a\ns\n\n");
    assert_eq!(diagnostics, strings(&["b -> \"t\""]));
}

#[test]
fn reader_hands_out_records_then_none() {
    let mut reader = JsonReader::new(b" {\"a\":1}\n\n{\"b\":[2]} ");
    assert_eq!(reader.next(), Some(Ok(record("{\"a\":1}"))));
    assert_eq!(reader.next(), Some(Ok(record("{\"b\":[2]}"))));
    assert_eq!(reader.next(), None);
    assert_eq!(reader.next(), None);
}

#[test]
fn reader_reports_an_error_once() {
    let mut reader = JsonReader::new(b"{\"a\":1} {\"a\":} {\"a\":3}");
    assert_eq!(reader.next(), Some(Ok(record("{\"a\":1}"))));
    let failed = reader.next().unwrap().unwrap_err();
    assert_eq!(failed.message(), "expected value at line 1 column 14");
    assert_eq!(reader.next(), None);
    assert_eq!(reader.next(), None);
}

#[test]
fn reader_reports_a_value_cut_short() {
    let mut reader = JsonReader::new(b"{\"a\":");
    let failed = reader.next().unwrap().unwrap_err();
    assert_eq!(failed.message(), "EOF while parsing a value at line 1 column 5");
    assert_eq!(reader.next(), None);
}

#[test]
fn first_phase_stops_at_the_buffer_size() {
    let mut reader = JsonReader::new(b"{\"b\":1,\"a\":2}{\"c\":3,\"a\":4}{\"d\":5}");
    let (buffer, header) = fill_buffer_and_header(&mut reader, 2).unwrap();
    assert_eq!(buffer, vec![record("{\"a\":2,\"b\":1}"), record("{\"a\":4,\"c\":3}")]);
    assert_eq!(header, strings(&["a", "b", "c"]));
    assert_eq!(reader.next(), Some(Ok(record("{\"d\":5}"))));
    assert_eq!(reader.next(), None);
}

#[test]
fn first_phase_takes_all_there_is() {
    let mut reader = JsonReader::new(b"{\"k\":1}");
    let (buffer, header) = fill_buffer_and_header(&mut reader, 3).unwrap();
    assert_eq!(buffer, vec![record("{\"k\":1}")]);
    assert_eq!(header, strings(&["k"]));
    assert_eq!(reader.next(), None);
}

#[test]
fn first_phase_fails_on_a_malformed_value() {
    let mut reader = JsonReader::new(b"{\"k\":1} nonsense");
    let failed = fill_buffer_and_header(&mut reader, 2).unwrap_err();
    assert_eq!(failed.message(), "expected ident at line 1 column 10");
    assert_eq!(reader.next(), None);
}

#[test]
fn first_phase_does_not_read_past_the_buffer() {
    let mut reader = JsonReader::new(b"{\"k\":1} nonsense");
    let (buffer, header) = fill_buffer_and_header(&mut reader, 1).unwrap();
    assert_eq!(buffer.len(), 1);
    assert_eq!(header, strings(&["k"]));
    assert!(reader.next().unwrap().is_err());
}

#[test]
fn row_follows_the_header_not_the_record() {
    let mut writer = TsvWriter::new(String::new(), &strings(&["c", "a"]));
    let mut diagnostics = Vec::new();
    write_row(&mut writer, record("{\"a\":1,\"b\":2,\"c\":3}"), &strings(&["c", "a"]), &mut diagnostics);
    assert_eq!(writer.into_inner(), "c\ta\n3\t1\n");
    assert_eq!(diagnostics, strings(&["b -> 2"]));
}

#[test]
fn column_named_twice_is_filled_once() {
    let mut writer = TsvWriter::new(String::new(), &[]);
    let mut diagnostics = Vec::new();
    write_row(&mut writer, record("{\"a\":1}"), &strings(&["a", "b", "a"]), &mut diagnostics);
    assert_eq!(writer.into_inner(), "\n1\t\t\n");
    assert!(diagnostics.is_empty());
}

#[test]
fn buffered_rows_come_in_the_order_read() {
    let header = strings(&["n"]);
    let mut writer = TsvWriter::new(String::new(), &header);
    let mut diagnostics = Vec::new();
    let buffer = vec![record("{\"n\":3}"), record("{\"n\":1,\"m\":0}"), record("{\"n\":2}")];
    write_buffered(&mut writer, buffer, &header, &mut diagnostics);
    assert_eq!(writer.into_inner(), "n\n3\n1\n2\n");
    assert_eq!(diagnostics, strings(&["m -> 0"]));
}

#[test]
fn remaining_rows_are_written_until_the_input_ends() {
    let header = strings(&["n"]);
    let mut writer = TsvWriter::new(String::new(), &header);
    let mut diagnostics = Vec::new();
    let reader = JsonReader::new(b"{\"n\":1}{\"n\":2}");
    let outcome = write_remaining(&mut writer, reader, &header, &mut diagnostics);
    assert_eq!(outcome, Ok(()));
    assert_eq!(writer.into_inner(), "n\n1\n2\n");
}

#[test]
fn remaining_rows_are_written_until_a_malformed_value() {
    let header = strings(&["n"]);
    let mut writer = TsvWriter::new(String::new(), &header);
    let mut diagnostics = Vec::new();
    let reader = JsonReader::new(b"{\"n\":1}{\"x\":2}}{\"n\":3}");
    let outcome = write_remaining(&mut writer, reader, &header, &mut diagnostics);
    assert_eq!(outcome.unwrap_err().message(), "expected value at line 1 column 15");
    assert_eq!(writer.into_inner(), "n\n1\n\n");
    assert_eq!(diagnostics, strings(&["x -> 2"]));
}

#[test]
fn header_grows_by_the_names_it_lacks() {
    let mut header = strings(&["b"]);
    extend_header(&mut header, &strings(&["c", "b", "a", "c"]));
    assert_eq!(header, strings(&["b", "c", "a"]));
    extend_header(&mut header, &[]);
    assert_eq!(header, strings(&["b", "c", "a"]));
    let mut empty: Vec<String> = Vec::new();
    extend_header(&mut empty, &strings(&["", "x", ""]));
    assert_eq!(empty, strings(&["", "x"]));
}
