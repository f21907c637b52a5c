//! Joining and splitting strings, and numbers in decimal.

use vstd::prelude::*;

verus! {

/// Equality of two string slices is equality of their characters (std's `==`
/// on `str`).
pub assume_specification[ <str as PartialEq>::eq ](a: &str, b: &str) -> (same: bool)
    ensures
        same == (a@ == b@),
;

/// Whether one of `names` is `name`.
pub fn contains_name(names: &[String], name: &str) -> (found: bool)
    ensures
        found == names.deep_view().contains(name@),
{
    let mut i: usize = 0;
    while i < names.len()
        invariant
            i <= names.len(),
            !names.deep_view().take(i as int).contains(name@),
        decreases names.len() - i,
    {
        if names[i].as_str().eq(name) {
            assert(names.deep_view()[i as int] == name@);
            return true;
        }
        i += 1;
    }
    proof {
        assert(names.deep_view().take(names.len() as int) == names.deep_view());
    }
    false
}

/// The concatenation of `fields`, with `sep` between each two neighbours.
pub open spec fn join(fields: Seq<Seq<char>>, sep: Seq<char>) -> Seq<char>
    decreases fields.len(),
{
    if fields.len() == 0 {
        Seq::empty()
    } else if fields.len() == 1 {
        fields[0]
    } else {
        join(fields.drop_last(), sep) + sep + fields.last()
    }
}

/// Joins `fields` with `sep` between each two neighbours.
pub fn join_strings(fields: &[String], sep: &str) -> (joined: String)
    ensures
        joined@ == join(fields.deep_view(), sep@),
{
    let mut joined = String::new();
    let mut i: usize = 0;
    while i < fields.len()
        invariant
            i <= fields.len(),
            joined@ == join(fields.deep_view().take(i as int), sep@),
        decreases fields.len() - i,
    {
        proof {
            let next = fields.deep_view().take(i + 1);
            assert(next.drop_last() == fields.deep_view().take(i as int));
        }
        if i > 0 {
            joined.append(sep);
        }
        joined.append(fields[i].as_str());
        i += 1;
    }
    proof {
        assert(fields.deep_view().take(fields.len() as int) == fields.deep_view());
    }
    joined
}

/// The character for the digit `d`.
pub open spec fn digit_char(d: int) -> char {
    if d == 0 {
        '0'
    } else if d == 1 {
        '1'
    } else if d == 2 {
        '2'
    } else if d == 3 {
        '3'
    } else if d == 4 {
        '4'
    } else if d == 5 {
        '5'
    } else if d == 6 {
        '6'
    } else if d == 7 {
        '7'
    } else if d == 8 {
        '8'
    } else {
        '9'
    }
}

/// The decimal digits of `n`, most significant first, without leading zeros.
pub open spec fn decimal(n: nat) -> Seq<char>
    decreases n,
{
    if n < 10 {
        seq![digit_char(n as int)]
    } else {
        decimal(n / 10).push(digit_char((n % 10) as int))
    }
}

/// The digit `d` as a string.
fn digit_str(d: usize) -> (s: &'static str)
    requires
        d < 10,
    ensures
        s@ == seq![digit_char(d as int)],
{
    proof {
        reveal_strlit("0");
        reveal_strlit("1");
        reveal_strlit("2");
        reveal_strlit("3");
        reveal_strlit("4");
        reveal_strlit("5");
        reveal_strlit("6");
        reveal_strlit("7");
        reveal_strlit("8");
        reveal_strlit("9");
    }
    if d == 0 {
        "0"
    } else if d == 1 {
        "1"
    } else if d == 2 {
        "2"
    } else if d == 3 {
        "3"
    } else if d == 4 {
        "4"
    } else if d == 5 {
        "5"
    } else if d == 6 {
        "6"
    } else if d == 7 {
        "7"
    } else if d == 8 {
        "8"
    } else {
        "9"
    }
}

/// Renders `n` in decimal.
pub fn decimal_string(n: usize) -> (s: String)
    ensures
        s@ == decimal(n as nat),
    decreases n,
{
    if n < 10 {
        String::from_str(digit_str(n))
    } else {
        let mut s = decimal_string(n / 10);
        s.append(digit_str(n % 10));
        s
    }
}

/// The pieces of `s` between occurrences of `sep`: one more piece than there
/// are occurrences.
pub open spec fn split(s: Seq<char>, sep: char) -> Seq<Seq<char>>
    decreases s.len(),
{
    if s.len() == 0 {
        seq![Seq::empty()]
    } else {
        let head = split(s.drop_last(), sep);
        if s.last() == sep {
            head.push(Seq::empty())
        } else {
            head.drop_last().push(head.last().push(s.last()))
        }
    }
}

/// Splitting gives at least one piece.
pub proof fn lemma_split_nonempty(s: Seq<char>, sep: char)
    ensures
        split(s, sep).len() >= 1,
{
}

/// Splits `line` at every occurrence of `sep`.
pub fn split_string(line: &str, sep: char) -> (fields: Vec<String>)
    ensures
        fields.deep_view() == split(line@, sep),
{
    let n = line.unicode_len();
    let mut fields: Vec<String> = Vec::new();
    let mut start: usize = 0;
    let mut i: usize = 0;
    proof {
        assert(line@.take(0) == Seq::<char>::empty());
    }
    for c in it: line.chars()
        invariant
            n == line@.len(),
            it.seq() == line@,
            i == it.index(),
            start <= i,
            split(line@.take(i as int), sep) == fields.deep_view().push(
                line@.subrange(start as int, i as int),
            ),
    {
        proof {
            let next = line@.take(i + 1);
            assert(next.drop_last() == line@.take(i as int));
        }
        if c == sep {
            let piece = String::from_str(line.substring_char(start, i));
            fields.push(piece);
            start = i + 1;
            proof {
                assert(line@.subrange(start as int, start as int) == Seq::<char>::empty());
            }
        } else {
            proof {
                assert(line@.subrange(start as int, i + 1) == line@.subrange(
                    start as int,
                    i as int,
                ).push(c));
            }
        }
        i += 1;
    }
    let piece = String::from_str(line.substring_char(start, i));
    fields.push(piece);
    proof {
        assert(line@.take(i as int) == line@);
    }
    fields
}

/// Text without `sep`, put behind `s`, lengthens the last piece of `s` and
/// starts no new one.
pub proof fn lemma_split_append(s: Seq<char>, more: Seq<char>, sep: char)
    requires
        !more.contains(sep),
    ensures
        split(s, sep).len() >= 1,
        split(s + more, sep) == split(s, sep).drop_last().push(split(s, sep).last() + more),
    decreases more.len(),
{
    if more.len() > 0 {
        let init = more.drop_last();
        lemma_split_append(s, init, sep);
        assert((s + more).drop_last() == s + init);
        assert(split(s + init, sep).last().push(more.last()) == split(s, sep).last() + more);
    }
}

/// Splitting what was joined gives the fields back, where there is at least
/// one field and no field holds the separator.
pub proof fn lemma_split_join(fields: Seq<Seq<char>>, sep: char)
    requires
        fields.len() >= 1,
        forall|i: int| 0 <= i < fields.len() ==> !(#[trigger] fields[i]).contains(sep),
    ensures
        split(join(fields, seq![sep]), sep) == fields,
    decreases fields.len(),
{
    if fields.len() == 1 {
        lemma_split_append(Seq::empty(), fields[0], sep);
    } else {
        let init = fields.drop_last();
        lemma_split_join(init, sep);
        let ended = join(init, seq![sep]) + seq![sep];
        assert(ended.drop_last() == join(init, seq![sep]));
        lemma_split_append(ended, fields.last(), sep);
    }
}

/// Joining what was split gives the text back.
pub proof fn lemma_join_split(s: Seq<char>, sep: char)
    ensures
        join(split(s, sep), seq![sep]) == s,
    decreases s.len(),
{
    if s.len() > 0 {
        let init = s.drop_last();
        lemma_join_split(init, sep);
        let head = split(init, sep);
        assert(s == init.push(s.last()));
        if s.last() == sep {
            assert(head.push(Seq::empty()).drop_last() == head);
        } else if head.len() > 1 {
            let grown = head.last().push(s.last());
            assert(head.drop_last().push(grown).drop_last() == head.drop_last());
        }
    }
}

/// Where field `i` begins in the joined text, for a separator of one
/// character: behind the fields before it and one separator for each.
pub open spec fn field_offset(fields: Seq<Seq<char>>, i: int) -> int
    decreases i,
{
    if i <= 0 {
        0
    } else {
        field_offset(fields, i - 1) + fields[i - 1].len() + 1
    }
}

/// Where a field begins does not depend on the fields behind it.
proof fn lemma_field_offset_prefix(fields: Seq<Seq<char>>, shorter: Seq<Seq<char>>, i: int)
    requires
        0 <= i <= shorter.len() <= fields.len(),
        forall|j: int| 0 <= j < shorter.len() ==> shorter[j] == fields[j],
    ensures
        field_offset(shorter, i) == field_offset(fields, i),
    decreases i,
{
    if i > 0 {
        lemma_field_offset_prefix(fields, shorter, i - 1);
    }
}

/// Whether field `i` stands in `text` as it is, at its place, with `sep`
/// before it unless it is the first.
pub open spec fn field_stands_in(
    text: Seq<char>,
    fields: Seq<Seq<char>>,
    i: int,
    sep: char,
) -> bool {
    let from = field_offset(fields, i);
    &&& 0 <= from
    &&& from + fields[i].len() <= text.len()
    &&& text.subrange(from, from + fields[i].len()) == fields[i]
    &&& i >= 1 ==> from >= 1 && text[from - 1] == sep
}

/// Joining changes no field: each stands in the joined text as it is, one
/// separator behind the field before it, and the text holds nothing else.
pub proof fn lemma_join_keeps_fields(fields: Seq<Seq<char>>, sep: char)
    requires
        fields.len() >= 1,
    ensures
        join(fields, seq![sep]).len() + 1 == field_offset(fields, fields.len() as int),
        forall|i: int|
            0 <= i < fields.len() ==> #[trigger] field_stands_in(
                join(fields, seq![sep]),
                fields,
                i,
                sep,
            ),
    decreases fields.len(),
{
    let text = join(fields, seq![sep]);
    if fields.len() == 1 {
        assert(field_offset(fields, 1) == field_offset(fields, 0) + fields[0].len() + 1);
        assert(text.subrange(0, fields[0].len() as int) == fields[0]);
    } else {
        let init = fields.drop_last();
        let last = fields.last();
        let before = join(init, seq![sep]);
        let n = init.len() as int;
        lemma_join_keeps_fields(init, sep);
        lemma_field_offset_prefix(fields, init, n);
        assert forall|i: int| 0 <= i < fields.len() implies #[trigger] field_stands_in(
            text,
            fields,
            i,
            sep,
        ) by {
            lemma_field_offset_prefix(fields, init, i);
            let from = field_offset(fields, i);
            if i < n {
                assert(field_stands_in(before, init, i, sep));
                assert(text.subrange(from, from + fields[i].len()) == before.subrange(
                    from,
                    from + fields[i].len(),
                ));
            } else {
                assert(text.subrange(from, from + last.len()) == last);
            }
        }
    }
}

} // verus!
