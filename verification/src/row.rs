//! What the row of a record holds, what is reported of the record, and what
//! holds of both.

use crate::record::{cell_text, entry_keys, json_text, lookup, record_entries, Record};
use crate::text::split;
use crate::tsv::{lemma_line_reads_back, tsv_line};
use vstd::prelude::*;

verus! {

/// What stands in column `column` of the row for a record with these fields.
///
/// It is the text of the field that the column is named after, and empty
/// where the record has no such field. A column whose name an earlier column
/// has already is empty too: a field is used once.
pub open spec fn row_cell(
    entries: Seq<(Seq<char>, serde_json::Value)>,
    header: Seq<Seq<char>>,
    column: int,
) -> Seq<char> {
    if header.take(column).contains(header[column]) {
        Seq::empty()
    } else {
        match lookup(entries, header[column]) {
            Some(value) => cell_text(value),
            None => Seq::empty(),
        }
    }
}

/// The row for a record with these fields: one cell for each column of the
/// header.
pub open spec fn project(
    entries: Seq<(Seq<char>, serde_json::Value)>,
    header: Seq<Seq<char>>,
) -> Seq<Seq<char>> {
    Seq::new(header.len(), |column: int| row_cell(entries, header, column))
}

/// Holds of the fields that no column of the header is named after.
pub open spec fn unnamed_in(header: Seq<Seq<char>>) -> spec_fn(
    (Seq<char>, serde_json::Value),
) -> bool {
    |entry: (Seq<char>, serde_json::Value)| !header.contains(entry.0)
}

/// Holds of the fields that a column of the header is named after.
pub open spec fn named_in(header: Seq<Seq<char>>) -> spec_fn(
    (Seq<char>, serde_json::Value),
) -> bool {
    |entry: (Seq<char>, serde_json::Value)| header.contains(entry.0)
}

/// The fields that no column of the header is named after, in the record's
/// order.
pub open spec fn unaccounted(
    entries: Seq<(Seq<char>, serde_json::Value)>,
    header: Seq<Seq<char>>,
) -> Seq<(Seq<char>, serde_json::Value)> {
    entries.filter(unnamed_in(header))
}

/// How an unaccounted field is reported: its name, an arrow, its JSON text.
pub open spec fn diagnostic_line(name: Seq<char>, value: serde_json::Value) -> Seq<char> {
    name + " -> "@ + json_text(value)
}

/// The reports for the unaccounted fields of a record, in the record's order.
pub open spec fn unaccounted_lines(
    entries: Seq<(Seq<char>, serde_json::Value)>,
    header: Seq<Seq<char>>,
) -> Seq<Seq<char>> {
    let left = unaccounted(entries, header);
    Seq::new(left.len(), |i: int| diagnostic_line(left[i].0, left[i].1))
}

/// The output lines for `records`, one after the other.
pub open spec fn rows_text(records: Seq<Record>, header: Seq<Seq<char>>) -> Seq<char>
    decreases records.len(),
{
    if records.len() == 0 {
        Seq::empty()
    } else {
        rows_text(records.drop_last(), header) + tsv_line(
            project(record_entries(records.last()), header),
        )
    }
}

/// The reports for `records`, one record after the other.
pub open spec fn rows_diagnostics(records: Seq<Record>, header: Seq<Seq<char>>) -> Seq<
    Seq<char>,
>
    decreases records.len(),
{
    if records.len() == 0 {
        Seq::empty()
    } else {
        rows_diagnostics(records.drop_last(), header) + unaccounted_lines(
            record_entries(records.last()),
            header,
        )
    }
}

/// In fields whose names all differ, a field is found under its name.
pub proof fn lemma_lookup_finds(entries: Seq<(Seq<char>, serde_json::Value)>, at: int)
    requires
        entry_keys(entries).no_duplicates(),
        0 <= at < entries.len(),
    ensures
        lookup(entries, entries[at].0) == Some(entries[at].1),
    decreases entries.len(),
{
    let keys = entry_keys(entries);
    if at > 0 {
        let rest = entries.skip(1);
        let rest_keys = entry_keys(rest);
        assert(keys[0] != keys[at]);
        assert forall|i: int, j: int|
            0 <= i < rest_keys.len() && 0 <= j < rest_keys.len() && i != j implies rest_keys[i]
            != rest_keys[j] by {
            assert(rest_keys[i] == keys[i + 1]);
            assert(rest_keys[j] == keys[j + 1]);
        }
        lemma_lookup_finds(rest, at - 1);
    }
}

/// The reports for one more field: a line more where no column is named
/// after the field, and the same lines where one is.
pub(crate) proof fn lemma_unaccounted_lines_step(
    entries: Seq<(Seq<char>, serde_json::Value)>,
    header: Seq<Seq<char>>,
    at: int,
)
    requires
        0 <= at < entries.len(),
    ensures
        unaccounted_lines(entries.take(at + 1), header) == if header.contains(entries[at].0) {
            unaccounted_lines(entries.take(at), header)
        } else {
            unaccounted_lines(entries.take(at), header).push(
                diagnostic_line(entries[at].0, entries[at].1),
            )
        },
{
    let shorter = entries.take(at);
    assert(entries.take(at + 1) == shorter.push(entries[at]));
    shorter.lemma_filter_push(entries[at], unnamed_in(header));
}

/// The rows of two runs of records are the rows of the first, then the rows
/// of the second.
pub(crate) proof fn lemma_rows_concat(
    first: Seq<Record>,
    second: Seq<Record>,
    header: Seq<Seq<char>>,
)
    ensures
        rows_text(first + second, header) == rows_text(first, header) + rows_text(second, header),
        rows_diagnostics(first + second, header) == rows_diagnostics(first, header)
            + rows_diagnostics(second, header),
    decreases second.len(),
{
    if second.len() > 0 {
        lemma_rows_concat(first, second.drop_last(), header);
        assert((first + second).drop_last() == first + second.drop_last());
    }
}

/// Row alignment. A row has one cell for each column of the header, whatever
/// the record holds.
pub proof fn lemma_row_alignment(
    entries: Seq<(Seq<char>, serde_json::Value)>,
    header: Seq<Seq<char>>,
)
    ensures
        project(entries, header).len() == header.len(),
{
}

/// Row alignment, in the text. The line of a row holds as many fields as the
/// header has columns, where the header has a column and no cell holds a tab.
pub proof fn lemma_line_alignment(
    entries: Seq<(Seq<char>, serde_json::Value)>,
    header: Seq<Seq<char>>,
)
    requires
        header.len() >= 1,
        forall|column: int|
            0 <= column < header.len() ==> !(#[trigger] project(entries, header)[column]).contains(
                '\t',
            ),
    ensures
        split(tsv_line(project(entries, header)).drop_last(), '\t').len() == header.len(),
{
    lemma_line_reads_back(project(entries, header));
}

/// A name is looked up in vain exactly where no field has it.
pub proof fn lemma_lookup_none(entries: Seq<(Seq<char>, serde_json::Value)>, key: Seq<char>)
    ensures
        lookup(entries, key) is None <==> !entry_keys(entries).contains(key),
    decreases entries.len(),
{
    let keys = entry_keys(entries);
    if entries.len() > 0 {
        let rest = entries.skip(1);
        lemma_lookup_none(rest, key);
        let rest_keys = entry_keys(rest);
        if entries[0].0 == key {
            assert(keys[0] == key);
        } else {
            if keys.contains(key) {
                let i = choose|i: int| 0 <= i < keys.len() && keys[i] == key;
                assert(rest_keys[i - 1] == key);
            }
            if rest_keys.contains(key) {
                let i = choose|i: int| 0 <= i < rest_keys.len() && rest_keys[i] == key;
                assert(keys[i + 1] == key);
            }
        }
    }
}

/// Missing-field policy. Where the record has no field of a column's name,
/// the cell of that column is empty.
pub proof fn lemma_missing_field_is_empty(
    entries: Seq<(Seq<char>, serde_json::Value)>,
    header: Seq<Seq<char>>,
    column: int,
)
    requires
        0 <= column < header.len(),
        !entry_keys(entries).contains(header[column]),
    ensures
        project(entries, header)[column] == Seq::<char>::empty(),
{
    lemma_lookup_none(entries, header[column]);
}

/// Where the record has a field of a column's name, and no earlier column
/// has that name, the cell is the text of that field.
pub proof fn lemma_present_field_is_written(
    entries: Seq<(Seq<char>, serde_json::Value)>,
    header: Seq<Seq<char>>,
    column: int,
)
    requires
        0 <= column < header.len(),
        header.no_duplicates(),
        entry_keys(entries).contains(header[column]),
    ensures
        lookup(entries, header[column]) matches Some(value) && project(entries, header)[column]
            == cell_text(value),
{
    lemma_lookup_none(entries, header[column]);
    let earlier = header.take(column);
    if earlier.contains(header[column]) {
        let i = choose|i: int| 0 <= i < earlier.len() && earlier[i] == header[column];
        assert(header[i] == header[column]);
    }
}

/// Looking a name up among the fields that have a column finds what looking
/// it up among all fields finds, if the name is a column's.
proof fn lemma_lookup_named(
    entries: Seq<(Seq<char>, serde_json::Value)>,
    header: Seq<Seq<char>>,
    key: Seq<char>,
)
    requires
        header.contains(key),
    ensures
        lookup(entries.filter(named_in(header)), key) == lookup(entries, key),
    decreases entries.len(),
{
    if entries.len() > 0 {
        let first = entries[0];
        let rest = entries.skip(1);
        assert(entries == seq![first] + rest);
        rest.lemma_filter_prepend(first, named_in(header));
        lemma_lookup_named(rest, header, key);
        if named_in(header)(first) {
            assert(entries.filter(named_in(header)).skip(1) == rest.filter(named_in(header)));
        }
    }
}

/// Unaccounted-field policy. A field that no column is named after is
/// reported, and it is reported as that field: each report is the report of
/// one such field. The row is what it would be without those fields.
pub proof fn lemma_unaccounted_fields(
    entries: Seq<(Seq<char>, serde_json::Value)>,
    header: Seq<Seq<char>>,
)
    ensures
        project(entries, header) == project(entries.filter(named_in(header)), header),
        unaccounted_lines(entries, header).len() == unaccounted(entries, header).len(),
        forall|i: int|
            0 <= i < entries.len() && !header.contains(entries[i].0) ==> unaccounted_lines(
                entries,
                header,
            ).contains(diagnostic_line(#[trigger] entries[i].0, entries[i].1)),
        forall|j: int|
            0 <= j < unaccounted(entries, header).len() ==> entries.contains(
                #[trigger] unaccounted(entries, header)[j],
            ) && !header.contains(unaccounted(entries, header)[j].0),
{
    let kept = entries.filter(named_in(header));
    assert forall|column: int| 0 <= column < header.len() implies row_cell(
        entries,
        header,
        column,
    ) == row_cell(kept, header, column) by {
        lemma_lookup_named(entries, header, header[column]);
    }
    let left = unaccounted(entries, header);
    let lines = unaccounted_lines(entries, header);
    assert forall|i: int|
        0 <= i < entries.len() && !header.contains(entries[i].0) implies lines.contains(
        diagnostic_line(#[trigger] entries[i].0, entries[i].1),
    ) by {
        entries.lemma_filter_contains(unnamed_in(header), i);
        let j = choose|j: int| 0 <= j < left.len() && left[j] == entries[i];
        assert(lines[j] == diagnostic_line(entries[i].0, entries[i].1));
    }
    assert forall|j: int| 0 <= j < left.len() implies entries.contains(#[trigger] left[j])
        && !header.contains(left[j].0) by {
        entries.lemma_filter_pred(unnamed_in(header), j);
        entries.lemma_filter_contains_rev(unnamed_in(header), left[j]);
    }
}

/// Where every field of a record has a column, nothing is unaccounted.
pub proof fn lemma_nothing_unaccounted(
    entries: Seq<(Seq<char>, serde_json::Value)>,
    header: Seq<Seq<char>>,
)
    requires
        forall|i: int| 0 <= i < entries.len() ==> header.contains(#[trigger] entries[i].0),
    ensures
        unaccounted(entries, header).len() == 0,
        unaccounted_lines(entries, header).len() == 0,
{
    let left = unaccounted(entries, header);
    if left.len() > 0 {
        entries.lemma_filter_pred(unnamed_in(header), 0);
        entries.lemma_filter_contains_rev(unnamed_in(header), left[0]);
        let i = choose|i: int| 0 <= i < entries.len() && entries[i] == left[0];
        assert(header.contains(entries[i].0));
    }
}

} // verus!
