//! What the header of a run is, and what holds of it.

use crate::record::{entry_keys, record_entries, Record};
use vstd::prelude::*;

verus! {

/// `header`, and behind it those of `names` that it lacks, each once, in the
/// order of `names`.
pub open spec fn with_new_names(header: Seq<Seq<char>>, names: Seq<Seq<char>>) -> Seq<Seq<char>>
    decreases names.len(),
{
    if names.len() == 0 {
        header
    } else {
        let before = with_new_names(header, names.drop_last());
        if before.contains(names.last()) {
            before
        } else {
            before.push(names.last())
        }
    }
}

/// `names` with each name kept where it first occurs, and dropped where it
/// occurs again.
pub open spec fn first_seen(names: Seq<Seq<char>>) -> Seq<Seq<char>> {
    with_new_names(Seq::empty(), names)
}

/// The field names of `records`, record after record, each record's names in
/// its own order.
pub open spec fn all_names(records: Seq<Record>) -> Seq<Seq<char>>
    decreases records.len(),
{
    if records.len() == 0 {
        Seq::empty()
    } else {
        all_names(records.drop_last()) + entry_keys(record_entries(records.last()))
    }
}

/// The header that `records` give: every field name that occurs in them, in
/// the order in which the names are first seen.
pub open spec fn inferred_header(records: Seq<Record>) -> Seq<Seq<char>> {
    first_seen(all_names(records))
}

/// How many records the first phase holds back: `buffer_size` of them, or all
/// there are.
pub open spec fn window_len(available: nat, buffer_size: usize) -> int {
    if available < buffer_size {
        available as int
    } else {
        buffer_size as int
    }
}

/// The header that a run infers: the names of its first `buffer_size`
/// records, or of all its records where there are fewer.
pub open spec fn run_header(records: Seq<Record>, buffer_size: usize) -> Seq<Seq<char>> {
    inferred_header(records.take(window_len(records.len(), buffer_size)))
}

/// New names are added to what is there: the header that was, then each
/// name that it lacked, once. Nothing is added that is no name, and nothing
/// that was there is lost or moved.
pub proof fn lemma_with_new_names(header: Seq<Seq<char>>, names: Seq<Seq<char>>)
    ensures
        header.is_prefix_of(with_new_names(header, names)),
        header.no_duplicates() ==> with_new_names(header, names).no_duplicates(),
        forall|name: Seq<char>|
            with_new_names(header, names).contains(name) <==> header.contains(name)
                || names.contains(name),
    decreases names.len(),
{
    if names.len() > 0 {
        let init = names.drop_last();
        let last = names.last();
        lemma_with_new_names(header, init);
        let before = with_new_names(header, init);
        let after = with_new_names(header, names);
        assert forall|name: Seq<char>| after.contains(name) <==> header.contains(name)
            || names.contains(name) by {
            if names.contains(name) {
                let j = choose|j: int| 0 <= j < names.len() && names[j] == name;
                if j < init.len() {
                    assert(init[j] == name);
                    assert(init.contains(name));
                }
            }
            if before.contains(name) {
                let i = choose|i: int| 0 <= i < before.len() && before[i] == name;
                assert(after[i] == name);
            } else if name == last {
                assert(after[before.len() as int] == name);
            }
        }
    }
}

/// Adding names in two steps is adding them in one.
pub proof fn lemma_with_new_names_twice(
    header: Seq<Seq<char>>,
    names: Seq<Seq<char>>,
    more: Seq<Seq<char>>,
)
    ensures
        with_new_names(with_new_names(header, names), more) == with_new_names(
            header,
            names + more,
        ),
    decreases more.len(),
{
    if more.len() > 0 {
        lemma_with_new_names_twice(header, names, more.drop_last());
        assert((names + more).drop_last() == names + more.drop_last());
    }
}

/// Keeping first occurrences keeps every name, once.
pub proof fn lemma_first_seen(names: Seq<Seq<char>>)
    ensures
        first_seen(names).no_duplicates(),
        forall|name: Seq<char>| first_seen(names).contains(name) <==> names.contains(name),
{
    lemma_with_new_names(Seq::empty(), names);
}

/// More names only add to the end: what was seen first stays first.
pub proof fn lemma_first_seen_grows(names: Seq<Seq<char>>, more: Seq<Seq<char>>)
    ensures
        first_seen(names).is_prefix_of(first_seen(names + more)),
{
    lemma_with_new_names_twice(Seq::empty(), names, more);
    lemma_with_new_names(first_seen(names), more);
}

/// Names that were all seen before add nothing.
pub proof fn lemma_first_seen_absorbs(names: Seq<Seq<char>>, more: Seq<Seq<char>>)
    requires
        forall|i: int| 0 <= i < more.len() ==> names.contains(#[trigger] more[i]),
    ensures
        first_seen(names + more) == first_seen(names),
    decreases more.len(),
{
    if more.len() > 0 {
        let init = more.drop_last();
        lemma_first_seen_absorbs(names, init);
        assert((names + more).drop_last() == names + init);
        lemma_first_seen(names);
    }
}

/// The names of two runs of records are the names of the first, then the
/// names of the second.
pub proof fn lemma_all_names_concat(first: Seq<Record>, second: Seq<Record>)
    ensures
        all_names(first + second) == all_names(first) + all_names(second),
    decreases second.len(),
{
    if second.len() > 0 {
        lemma_all_names_concat(first, second.drop_last());
        assert((first + second).drop_last() == first + second.drop_last());
    }
}

/// Every name among the names of `records` is a field name of one of them.
pub proof fn lemma_all_names_origin(records: Seq<Record>, at: int)
    requires
        0 <= at < all_names(records).len(),
    ensures
        exists|r: int|
            0 <= r < records.len() && entry_keys(record_entries(#[trigger] records[r])).contains(
                all_names(records)[at],
            ),
    decreases records.len(),
{
    let init = records.drop_last();
    if at < all_names(init).len() {
        lemma_all_names_origin(init, at);
        let r = choose|r: int|
            0 <= r < init.len() && entry_keys(record_entries(#[trigger] init[r])).contains(
                all_names(init)[at],
            );
        assert(records[r] == init[r]);
    } else {
        let keys = entry_keys(record_entries(records.last()));
        assert(keys[at - all_names(init).len()] == all_names(records)[at]);
        assert(records[records.len() - 1] == records.last());
    }
}

/// The header names each field of the held records once, and nothing else.
pub proof fn lemma_header_names(records: Seq<Record>)
    ensures
        inferred_header(records).no_duplicates(),
        forall|name: Seq<char>|
            inferred_header(records).contains(name) <==> all_names(records).contains(name),
{
    lemma_first_seen(all_names(records));
}

/// Header stability. Where every field name of the later records occurs
/// among the first `buffer_size` records already, the header of the run is
/// the header that all the records together would give: every name, in the
/// order in which the names are first seen.
pub proof fn lemma_header_stability(records: Seq<Record>, buffer_size: usize)
    requires
        forall|r: int, k: int|
            buffer_size <= r < records.len() && 0 <= k < record_entries(records[r]).len()
                ==> all_names(records.take(buffer_size as int)).contains(
                #[trigger] record_entries(records[r])[k].0,
            ),
    ensures
        run_header(records, buffer_size) == inferred_header(records),
{
    let held = window_len(records.len(), buffer_size);
    let first = records.take(held);
    let later = records.skip(held);
    assert(records == first + later);
    lemma_all_names_concat(first, later);
    if records.len() > buffer_size {
        assert forall|i: int| 0 <= i < all_names(later).len() implies all_names(first).contains(
            #[trigger] all_names(later)[i],
        ) by {
            lemma_all_names_origin(later, i);
            let r = choose|r: int|
                0 <= r < later.len() && entry_keys(record_entries(#[trigger] later[r])).contains(
                    all_names(later)[i],
                );
            let keys = entry_keys(record_entries(later[r]));
            let k = choose|k: int| 0 <= k < keys.len() && keys[k] == all_names(later)[i];
            assert(later[r] == records[held + r]);
            assert(record_entries(records[held + r])[k].0 == all_names(later)[i]);
        }
        lemma_first_seen_absorbs(all_names(first), all_names(later));
    }
}

/// The header of a run is settled by the records that are held back:
/// whatever follows them, in whatever order its fields come, the header is
/// the same.
pub proof fn lemma_header_ignores_later_records(
    held: Seq<Record>,
    later: Seq<Record>,
    other: Seq<Record>,
    buffer_size: usize,
)
    requires
        held.len() == buffer_size,
    ensures
        run_header(held + later, buffer_size) == run_header(held + other, buffer_size),
        run_header(held + later, buffer_size) == inferred_header(held),
{
    assert((held + later).take(buffer_size as int) == held);
    assert((held + other).take(buffer_size as int) == held);
}

} // verus!
