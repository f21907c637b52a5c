//! The conversion: the three phases, and the run that joins them.
//!
//! The output and the reports are collected as text. Nothing here reads or
//! writes a file: a caller hands the input over and takes the text away.

use crate::error::RunError;
use crate::header::{
    all_names, inferred_header, lemma_with_new_names_twice, run_header, window_len, with_new_names,
};
use crate::record::{
    entry_keys, field_names, json_value_to_string, lookup, record_entries, stream_failure,
    stream_records, take_field, value_text, JsonReader, Record,
};
use crate::row::{
    diagnostic_line, lemma_lookup_finds, lemma_rows_concat, lemma_unaccounted_lines_step, project,
    row_cell, rows_diagnostics, rows_text, unaccounted_lines,
};
use crate::text::contains_name;
use crate::tsv::{tsv_line, TsvWriter};
use vstd::prelude::*;

verus! {

/// Whether the first phase meets a malformed value: one ends the records
/// before `buffer_size` of them were read.
pub open spec fn fails_in_window(
    records: Seq<Record>,
    failure: Option<Seq<char>>,
    buffer_size: usize,
) -> bool {
    failure is Some && records.len() < buffer_size
}

/// The first phase: reads up to `buffer_size` records and infers the header
/// from them.
///
/// A malformed value among them fails the phase at once. Otherwise the
/// records come back in the order read, with the header they give, and the
/// reader stands behind the last of them.
pub fn fill_buffer_and_header(reader: &mut JsonReader<'_>, buffer_size: usize) -> (filled: Result<
    (Vec<Record>, Vec<String>),
    RunError,
>)
    ensures
        match filled {
            Ok((buffer, header)) => {
                &&& !fails_in_window(old(reader).pending(), old(reader).failure(), buffer_size)
                &&& buffer@.len() <= buffer_size
                &&& buffer@ == old(reader).pending().take(
                    window_len(old(reader).pending().len(), buffer_size),
                )
                &&& header.deep_view() == inferred_header(buffer@)
                &&& final(reader).pending() == old(reader).pending().skip(buffer@.len() as int)
                &&& final(reader).failure() == old(reader).failure()
            },
            Err(error) => {
                &&& fails_in_window(old(reader).pending(), old(reader).failure(), buffer_size)
                &&& old(reader).failure() == Some(error@)
                &&& final(reader).pending().len() == 0
                &&& final(reader).failure() is None
            },
        },
{
    let ghost records = reader.pending();
    let ghost failure = reader.failure();
    let mut buffer: Vec<Record> = Vec::new();
    let mut header: Vec<String> = Vec::new();
    while buffer.len() < buffer_size
        invariant
            records == old(reader).pending(),
            failure == old(reader).failure(),
            buffer@.len() <= buffer_size,
            buffer@.len() <= records.len(),
            buffer@ == records.take(buffer@.len() as int),
            header.deep_view() == inferred_header(buffer@),
            reader.pending() == records.skip(buffer@.len() as int),
            reader.failure() == failure,
        ensures
            buffer@.len() == window_len(records.len(), buffer_size),
            !fails_in_window(records, failure, buffer_size),
            buffer@ == records.take(buffer@.len() as int),
            header.deep_view() == inferred_header(buffer@),
            reader.pending() == records.skip(buffer@.len() as int),
            reader.failure() == failure,
        decreases buffer_size - buffer.len(),
    {
        match reader.next() {
            None => {
                break ;
            },
            Some(Err(error)) => {
                return Err(error);
            },
            Some(Ok(record)) => {
                let ghost held = buffer@;
                let names = field_names(&record);
                extend_header(&mut header, names.as_slice());
                buffer.push(record);
                proof {
                    lemma_with_new_names_twice(Seq::empty(), all_names(held), names.deep_view());
                    assert(buffer@.drop_last() == held);
                }
            },
        }
    }
    Ok((buffer, header))
}

/// Appends to `header` those of `names` that it lacks, each once, in the
/// order of `names`.
pub fn extend_header(header: &mut Vec<String>, names: &[String])
    ensures
        final(header).deep_view() == with_new_names(old(header).deep_view(), names.deep_view()),
{
    let mut i: usize = 0;
    while i < names.len()
        invariant
            i <= names.len(),
            header.deep_view() == with_new_names(
                old(header).deep_view(),
                names.deep_view().take(i as int),
            ),
        decreases names.len() - i,
    {
        proof {
            assert(names.deep_view().take(i + 1).drop_last() == names.deep_view().take(i as int));
        }
        if !contains_name(header.as_slice(), names[i].as_str()) {
            header.push(names[i].clone());
        }
        i += 1;
    }
    proof {
        assert(names.deep_view().take(names.len() as int) == names.deep_view());
    }
}

/// What is left of the field called `name` once the fields called after
/// `taken` were taken out of the record.
spec fn left_of(
    entries: Seq<(Seq<char>, serde_json::Value)>,
    taken: Seq<Seq<char>>,
    name: Seq<char>,
) -> Option<serde_json::Value> {
    if taken.contains(name) {
        None
    } else {
        lookup(entries, name)
    }
}

/// Taking one more field out leaves of each name what was left of it, and
/// nothing of the one taken.
proof fn lemma_left_of_step(
    entries: Seq<(Seq<char>, serde_json::Value)>,
    taken: Seq<Seq<char>>,
    key: Seq<char>,
    name: Seq<char>,
)
    ensures
        left_of(entries, taken.push(key), name) == if name == key {
            None
        } else {
            left_of(entries, taken, name)
        },
{
    let more = taken.push(key);
    assert(more[taken.len() as int] == key);
    if taken.contains(name) {
        let i = choose|i: int| 0 <= i < taken.len() && taken[i] == name;
        assert(more[i] == name);
    }
    if more.contains(name) && name != key {
        let i = choose|i: int| 0 <= i < more.len() && more[i] == name;
        assert(taken[i] == name);
    }
}

/// Writes the row of one record, and reports the fields of the record that
/// no column is named after.
///
/// Such a field never reaches the output, and never stops the run.
pub fn write_row(
    writer: &mut TsvWriter,
    value_map: Record,
    header: &[String],
    diagnostics: &mut Vec<String>,
)
    ensures
        final(writer)@ == old(writer)@ + tsv_line(
            project(record_entries(value_map), header.deep_view()),
        ),
        final(diagnostics).deep_view() == old(diagnostics).deep_view() + unaccounted_lines(
            record_entries(value_map),
            header.deep_view(),
        ),
{
    let ghost entries = record_entries(value_map);
    let ghost columns = header.deep_view();
    let names = field_names(&value_map);
    let mut value_map = value_map;
    let mut fields: Vec<String> = Vec::new();
    let mut column: usize = 0;
    while column < header.len()
        invariant
            column <= header.len(),
            columns == header.deep_view(),
            forall|name: Seq<char>| #[trigger]
                lookup(record_entries(value_map), name) == left_of(
                    entries,
                    columns.take(column as int),
                    name,
                ),
            fields.deep_view() == project(entries, columns).take(column as int),
        decreases header.len() - column,
    {
        let ghost before = fields.deep_view();
        let cell = match take_field(&mut value_map, header[column].as_str()) {
            Some(value) => json_value_to_string(value),
            None => String::new(),
        };
        fields.push(cell);
        proof {
            assert(columns.take(column as int).push(columns[column as int]) == columns.take(
                column + 1,
            ));
            assert forall|name: Seq<char>| #[trigger]
                lookup(record_entries(value_map), name) == left_of(
                    entries,
                    columns.take(column + 1),
                    name,
                ) by {
                lemma_left_of_step(
                    entries,
                    columns.take(column as int),
                    columns[column as int],
                    name,
                );
            }
            assert(fields.deep_view() == before.push(cell@));
        }
        column += 1;
    }
    proof {
        assert(columns.take(column as int) == columns);
        assert(project(entries, columns).take(column as int) == project(entries, columns));
    }
    report_unaccounted(value_map, names, diagnostics, Ghost(entries), Ghost(columns));
    writer.write(fields.as_slice());
}

/// Reports the fields that no column is named after, in the record's order.
///
/// `names` are the field names of the record as it came, `entries` its
/// fields, and `left_over` is the record without the fields that have one of
/// `columns`: what is still found in it goes unaccounted.
fn report_unaccounted(
    left_over: Record,
    names: Vec<String>,
    diagnostics: &mut Vec<String>,
    Ghost(entries): Ghost<Seq<(Seq<char>, serde_json::Value)>>,
    Ghost(columns): Ghost<Seq<Seq<char>>>,
)
    requires
        names.deep_view() == entry_keys(entries),
        names.deep_view().no_duplicates(),
        forall|name: Seq<char>| #[trigger]
            lookup(record_entries(left_over), name) == left_of(entries, columns, name),
    ensures
        final(diagnostics).deep_view() == old(diagnostics).deep_view() + unaccounted_lines(
            entries,
            columns,
        ),
{
    let ghost keys = names.deep_view();
    let mut left_over = left_over;
    let mut i: usize = 0;
    proof {
        assert(old(diagnostics).deep_view() + Seq::<Seq<char>>::empty() == old(
            diagnostics,
        ).deep_view());
    }
    while i < names.len()
        invariant
            i <= names.len(),
            keys == names.deep_view(),
            keys == entry_keys(entries),
            keys.no_duplicates(),
            forall|name: Seq<char>| #[trigger]
                lookup(record_entries(left_over), name) == left_of(
                    entries,
                    columns + keys.take(i as int),
                    name,
                ),
            diagnostics.deep_view() == old(diagnostics).deep_view() + unaccounted_lines(
                entries.take(i as int),
                columns,
            ),
        decreases names.len() - i,
    {
        let ghost taken = columns + keys.take(i as int);
        proof {
            lemma_unaccounted_lines_step(entries, columns, i as int);
            lemma_lookup_finds(entries, i as int);
            assert(keys[i as int] == entries[i as int].0);
            assert(taken.push(keys[i as int]) == columns + keys.take(i + 1));
            if columns.contains(keys[i as int]) {
                let j = choose|j: int| 0 <= j < columns.len() && columns[j] == keys[i as int];
                assert(taken[j] == keys[i as int]);
            } else if taken.contains(keys[i as int]) {
                let j = choose|j: int| 0 <= j < taken.len() && taken[j] == keys[i as int];
                assert(keys.take(i as int)[j - columns.len()] == keys[j - columns.len()]);
            }
            assert(lookup(record_entries(left_over), keys[i as int]) == left_of(
                entries,
                taken,
                keys[i as int],
            ));
        }
        if let Some(value) = take_field(&mut left_over, names[i].as_str()) {
            let ghost before = diagnostics.deep_view();
            let mut line = names[i].clone();
            line.append(" -> ");
            line.append(value_text(&value).as_str());
            diagnostics.push(line);
            proof {
                assert(diagnostics.deep_view() == before.push(line@));
            }
        }
        proof {
            assert forall|name: Seq<char>| #[trigger]
                lookup(record_entries(left_over), name) == left_of(
                    entries,
                    columns + keys.take(i + 1),
                    name,
                ) by {
                lemma_left_of_step(entries, taken, keys[i as int], name);
            }
        }
        i += 1;
    }
    proof {
        assert(entries.take(i as int) == entries);
    }
}

/// The second phase: writes the rows of the records that were held back, in
/// the order in which they were read.
pub fn write_buffered(
    writer: &mut TsvWriter,
    buffer: Vec<Record>,
    header: &[String],
    diagnostics: &mut Vec<String>,
)
    ensures
        final(writer)@ == old(writer)@ + rows_text(buffer@, header.deep_view()),
        final(diagnostics).deep_view() == old(diagnostics).deep_view() + rows_diagnostics(
            buffer@,
            header.deep_view(),
        ),
{
    let ghost records = buffer@;
    let ghost columns = header.deep_view();
    for value_map in it: buffer
        invariant
            it.seq() == records,
            columns == header.deep_view(),
            writer@ == old(writer)@ + rows_text(records.take(it.index() as int), columns),
            diagnostics.deep_view() == old(diagnostics).deep_view() + rows_diagnostics(
                records.take(it.index() as int),
                columns,
            ),
    {
        proof {
            assert(records.take(it.index() + 1).drop_last() == records.take(it.index() as int));
        }
        write_row(writer, value_map, header, diagnostics);
    }
    proof {
        assert(records.take(records.len() as int) == records);
    }
}

/// The third phase: reads on from where the first phase stopped, and writes
/// each record's row as soon as it is read.
///
/// A malformed value stops the phase with its error. The rows written before
/// it stay written.
pub fn write_remaining(
    writer: &mut TsvWriter,
    reader: JsonReader<'_>,
    header: &[String],
    diagnostics: &mut Vec<String>,
) -> (outcome: Result<(), RunError>)
    ensures
        final(writer)@ == old(writer)@ + rows_text(reader.pending(), header.deep_view()),
        final(diagnostics).deep_view() == old(diagnostics).deep_view() + rows_diagnostics(
            reader.pending(),
            header.deep_view(),
        ),
        match outcome {
            Ok(_) => reader.failure() is None,
            Err(error) => reader.failure() == Some(error@),
        },
{
    let ghost records = reader.pending();
    let ghost failure = reader.failure();
    let ghost columns = header.deep_view();
    let ghost mut done: Seq<Record> = Seq::empty();
    let mut source = reader;
    loop
        invariant
            columns == header.deep_view(),
            records == done + source.pending(),
            records == reader.pending(),
            failure == reader.failure(),
            source.failure() == failure,
            writer@ == old(writer)@ + rows_text(done, columns),
            diagnostics.deep_view() == old(diagnostics).deep_view() + rows_diagnostics(
                done,
                columns,
            ),
        decreases source.pending().len(),
    {
        match source.next() {
            None => {
                return Ok(());
            },
            Some(Err(error)) => {
                return Err(error);
            },
            Some(Ok(value_map)) => {
                proof {
                    assert(done.push(value_map).drop_last() == done);
                    done = done.push(value_map);
                }
                write_row(writer, value_map, header, diagnostics);
            },
        }
    }
}

/// Converts JSON records to tab-separated text.
///
/// `input` holds the records: JSON objects, one after the other. The header
/// line and the rows are appended to `output`, and the reports of
/// unaccounted fields to `diagnostics`.
///
/// The header is inferred from the first `buffer_size` records, and stays as
/// it is from then on. A malformed value among those records fails the run
/// before anything is written. A later one fails it after the header and the
/// rows of all records before it.
pub fn json_to_tsv(
    input: &[u8],
    output: &mut String,
    diagnostics: &mut Vec<String>,
    buffer_size: usize,
) -> (outcome: Result<(), RunError>)
    ensures
        ({
            let records = stream_records(input@);
            let failure = stream_failure(input@);
            let header = run_header(records, buffer_size);
            if fails_in_window(records, failure, buffer_size) {
                &&& outcome matches Err(error)
                &&& failure == Some(error@)
                &&& final(output)@ == old(output)@
                &&& final(diagnostics)@ == old(diagnostics)@
            } else {
                &&& final(output)@ == old(output)@ + tsv_line(header) + rows_text(records, header)
                &&& final(diagnostics).deep_view() == old(diagnostics).deep_view()
                    + rows_diagnostics(records, header)
                &&& match outcome {
                    Ok(_) => failure is None,
                    Err(error) => failure == Some(error@),
                }
            }
        }),
{
    let ghost records = stream_records(input@);
    let mut reader = JsonReader::new(input);
    let (buffer, header) = match fill_buffer_and_header(&mut reader, buffer_size) {
        Ok(filled) => filled,
        Err(error) => {
            return Err(error);
        },
    };
    proof {
        lemma_rows_concat(buffer@, reader.pending(), header.deep_view());
        assert(records == buffer@ + reader.pending());
    }
    let mut text = String::new();
    core::mem::swap(output, &mut text);
    let mut writer = TsvWriter::new(text, header.as_slice());
    write_buffered(&mut writer, buffer, header.as_slice(), diagnostics);
    let outcome = write_remaining(&mut writer, reader, header.as_slice(), diagnostics);
    *output = writer.into_inner();
    outcome
}

} // verus!
